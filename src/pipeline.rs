//! Staging records, production slots and the audit log: intake, the
//! write-once verdict, and promotion by compare-and-set on a slot's version.

use vstd::prelude::*;
use crate::content::{ContentStore, StoreError, normalize, normalized, content_hash, store_outcome, bytes_equal};
use crate::sandbox::{ExecutionOutcome, SpecResult, SpecStatus, judge, judged_status};

verus! {

/// A kind of sandbox worker: a language and one engine variant for it.
pub struct Engine {
    pub language: Vec<u8>,
    pub name: Vec<u8>,
}

/// Where a staging attempt stands.
#[derive(Debug, Clone, Copy, PartialEq, Eq, Structural)]
pub enum StagingState {
    Staged,
    VerifiedPass,
    VerifiedFail,
    Promoted,
}

/// One submission of a snippet: a permanent audit unit.
pub struct StagingRecord {
    pub staging_id: u64,
    pub content_hash: u64,
    pub language: Vec<u8>,
    pub engine: Vec<u8>,
    pub slot_id: Vec<u8>,
    pub label: Vec<u8>,
    pub created_at: u64,
    pub spec_result: Option<SpecResult>,
    pub promoted_at: Option<u64>,
}

/// One change of a slot's active occupant.
#[derive(Debug, Clone, Copy, PartialEq, Eq, Structural)]
pub struct PromotionEvent {
    pub staging_id: u64,
    pub content_hash: u64,
    pub promoted_at: u64,
    pub outgoing_staging_id: Option<u64>,
}

/// A production position of a language, with its active snippet and the
/// promotions that led to it.
pub struct Slot {
    pub language: Vec<u8>,
    pub slot_id: Vec<u8>,
    pub active_staging_id: u64,
    pub active_hash: u64,
    pub version: u64,
    pub history: Vec<PromotionEvent>,
}

#[derive(Debug, Clone, Copy, PartialEq, Eq, Structural)]
pub enum AuditKind {
    StagingCreated,
    ExecutionCompleted,
    Promoted,
}

/// An entry of the append-only audit log.
#[derive(Debug, Clone, Copy, PartialEq, Eq, Structural)]
pub struct AuditEvent {
    pub kind: AuditKind,
    pub staging_id: u64,
    pub timestamp: u64,
}

#[derive(Debug, Clone, Copy, PartialEq, Eq, Structural)]
pub enum SubmitError {
    /// The language and engine pair is not registered.
    InvalidEngine,
    /// The staging id was handed out before.
    DuplicateStagingId,
    /// The normalised source hashes like other stored bytes.
    HashCollision { hash: u64 },
}

#[derive(Debug, Clone, Copy, PartialEq, Eq, Structural)]
pub enum VerifyError {
    UnknownStagingId,
    AlreadyVerified,
}

#[derive(Debug, Clone, Copy, PartialEq, Eq, Structural)]
pub enum PromoteError {
    UnknownStagingId,
    AlreadyPromoted,
    /// The attempt has no passing verdict.
    VerificationMismatch,
    /// The slot is no longer at the version the caller read.
    StaleSlotVersion { current: u64 },
    /// The slot's version counter cannot grow further.
    VersionExhausted,
}

#[derive(Debug, Clone, Copy, PartialEq, Eq, Structural)]
pub enum LookupError {
    UnknownStagingId,
    UnknownSlot,
}

/// What `staging_status` reports of an attempt.
#[derive(Debug, Clone, Copy, PartialEq, Eq, Structural)]
pub struct StagingStatus {
    pub state: StagingState,
    pub content_hash: u64,
    pub spec_result: Option<SpecResult>,
    pub promoted_at: Option<u64>,
}

/// A copy of a slot as `get_slot` reports it.
pub struct SlotInfo {
    pub active_staging_id: u64,
    pub active_hash: u64,
    pub version: u64,
    pub history: Vec<PromotionEvent>,
}

/// The staging ids of the attempts whose source has hash `h`, in order of
/// submission.
pub open spec fn ids_with_hash(records: Seq<StagingRecord>, h: u64) -> Seq<u64>
    decreases records.len(),
{
    if records.len() == 0 {
        Seq::empty()
    } else {
        let rest = ids_with_hash(records.drop_last(), h);
        if records.last().content_hash == h {
            rest.push(records.last().staging_id)
        } else {
            rest
        }
    }
}

/// The state an attempt is in, read off its write-once fields.
pub open spec fn state_of(r: StagingRecord) -> StagingState {
    if r.promoted_at is Some {
        StagingState::Promoted
    } else {
        match r.spec_result {
            None => StagingState::Staged,
            Some(res) => if res.status == SpecStatus::Pass {
                StagingState::VerifiedPass
            } else {
                StagingState::VerifiedFail
            },
        }
    }
}

/// Whether the attempt carries a passing verdict.
pub open spec fn passed(r: StagingRecord) -> bool {
    r.spec_result is Some && r.spec_result->Some_0.status == SpecStatus::Pass
}

pub open spec fn slot_has_key(s: Slot, language: Seq<u8>, slot_id: Seq<u8>) -> bool {
    s.language@ == language && s.slot_id@ == slot_id
}

pub open spec fn max_u64(a: u64, b: u64) -> u64 {
    if a >= b {
        a
    } else {
        b
    }
}

/// The fields of a fresh attempt.
pub open spec fn fresh_record(
    r: StagingRecord,
    staging_id: u64,
    content_hash: u64,
    language: Seq<u8>,
    engine: Seq<u8>,
    slot_id: Seq<u8>,
    label: Seq<u8>,
    created_at: u64,
) -> bool {
    &&& r.staging_id == staging_id
    &&& r.content_hash == content_hash
    &&& r.language@ == language
    &&& r.engine@ == engine
    &&& r.slot_id@ == slot_id
    &&& r.label@ == label
    &&& r.created_at == created_at
    &&& r.spec_result is None
    &&& r.promoted_at is None
}

/// What `submit` does: an unknown engine and a staging id in use are
/// refused; otherwise the normalised source is stored and a fresh attempt
/// in the staged state is appended, unless the store refuses the bytes.
pub open spec fn submit_post(
    pre: Pipeline,
    post: Pipeline,
    language: Seq<u8>,
    engine: Seq<u8>,
    slot_id: Seq<u8>,
    label: Seq<u8>,
    source: Seq<u8>,
    staging_id: u64,
    now: u64,
    r: Result<u64, SubmitError>,
) -> bool {
    if !pre.engine_known(language, engine) {
        r == Err::<u64, SubmitError>(SubmitError::InvalidEngine) && post == pre
    } else if pre.has_record(staging_id) {
        r == Err::<u64, SubmitError>(SubmitError::DuplicateStagingId) && post == pre
    } else {
        let stored = store_outcome(pre.store_spec(), normalized(source));
        match stored.1 {
            Err(StoreError::HashCollision { hash }) => r == Err::<u64, SubmitError>(
                SubmitError::HashCollision { hash },
            ) && post == pre,
            Ok(h) => {
                &&& r == Ok::<u64, SubmitError>(staging_id)
                &&& h == content_hash(normalized(source))
                &&& post.store_spec() == stored.0
                &&& post.records_spec().len() == pre.records_spec().len() + 1
                &&& post.records_spec().drop_last() == pre.records_spec()
                &&& fresh_record(
                    post.records_spec().last(),
                    staging_id,
                    h,
                    language,
                    engine,
                    slot_id,
                    label,
                    now,
                )
                &&& post.engines_spec() == pre.engines_spec()
                &&& post.slots_spec() == pre.slots_spec()
                &&& post.audit_spec() == pre.audit_spec().push(
                    AuditEvent { kind: AuditKind::StagingCreated, staging_id, timestamp: now },
                )
            },
        }
    }
}

/// What `verify` does: an unknown id and an attempt that already has a
/// verdict are refused and change nothing; otherwise the verdict is written
/// into the attempt and logged.
pub open spec fn verify_post(
    pre: Pipeline,
    post: Pipeline,
    staging_id: u64,
    status: SpecStatus,
    elapsed_micros: u64,
    now: u64,
    r: Result<SpecResult, VerifyError>,
) -> bool {
    if !pre.has_record(staging_id) {
        r == Err::<SpecResult, VerifyError>(VerifyError::UnknownStagingId) && post == pre
    } else if pre.record(staging_id).spec_result is Some {
        r == Err::<SpecResult, VerifyError>(VerifyError::AlreadyVerified) && post == pre
    } else {
        let res = SpecResult { status, elapsed_micros };
        let old_rec = pre.record(staging_id);
        &&& r == Ok::<SpecResult, VerifyError>(res)
        &&& post.records_spec().len() == pre.records_spec().len()
        &&& forall|i: int|
            0 <= i < pre.records_spec().len() && i != pre.record_index(staging_id)
                ==> #[trigger] post.records_spec()[i] == pre.records_spec()[i]
        &&& {
            let new_rec = post.records_spec()[pre.record_index(staging_id)];
            &&& new_rec.spec_result == Some(res)
            &&& new_rec.promoted_at == old_rec.promoted_at
            &&& new_rec.staging_id == old_rec.staging_id
            &&& new_rec.content_hash == old_rec.content_hash
            &&& new_rec.created_at == old_rec.created_at
            &&& new_rec.language@ == old_rec.language@
            &&& new_rec.engine@ == old_rec.engine@
            &&& new_rec.slot_id@ == old_rec.slot_id@
            &&& new_rec.label@ == old_rec.label@
        }
        &&& post.engines_spec() == pre.engines_spec()
        &&& post.store_spec() == pre.store_spec()
        &&& post.slots_spec() == pre.slots_spec()
        &&& post.audit_spec() == pre.audit_spec().push(
            AuditEvent { kind: AuditKind::ExecutionCompleted, staging_id, timestamp: now },
        )
    }
}

/// The event a successful promotion of `rec` appends to its slot.
pub open spec fn promotion_event(pre: Pipeline, rec: StagingRecord, now: u64) -> PromotionEvent {
    PromotionEvent {
        staging_id: rec.staging_id,
        content_hash: rec.content_hash,
        promoted_at: max_u64(now, rec.created_at),
        outgoing_staging_id: if pre.has_slot(rec.language@, rec.slot_id@) {
            Some(pre.slot(rec.language@, rec.slot_id@).active_staging_id)
        } else {
            None
        },
    }
}

/// What `promote` does. It is refused, changing nothing, for an unknown id,
/// an attempt promoted before, one without a passing verdict, a caller
/// that read another version of the slot than the current one, and a slot
/// whose counter is at its end. Otherwise, in one step: the slot's version
/// grows by one, its history by the new event, the attempt becomes its
/// occupant and is stamped; every other slot stays as it was.
pub open spec fn promote_post(
    pre: Pipeline,
    post: Pipeline,
    staging_id: u64,
    expected_version: u64,
    now: u64,
    r: Result<PromotionEvent, PromoteError>,
) -> bool {
    if !pre.has_record(staging_id) {
        r == Err::<PromotionEvent, PromoteError>(PromoteError::UnknownStagingId) && post == pre
    } else {
        let rec = pre.record(staging_id);
        let lang = rec.language@;
        let sid = rec.slot_id@;
        let v = pre.slot_version(lang, sid);
        if rec.promoted_at is Some {
            r == Err::<PromotionEvent, PromoteError>(PromoteError::AlreadyPromoted) && post == pre
        } else if !passed(rec) {
            r == Err::<PromotionEvent, PromoteError>(PromoteError::VerificationMismatch) && post
                == pre
        } else if expected_version != v {
            r == Err::<PromotionEvent, PromoteError>(
                PromoteError::StaleSlotVersion { current: v },
            ) && post == pre
        } else if v == u64::MAX {
            r == Err::<PromotionEvent, PromoteError>(PromoteError::VersionExhausted) && post == pre
        } else {
            let ev = promotion_event(pre, rec, now);
            let idx = pre.record_index(staging_id);
            &&& r == Ok::<PromotionEvent, PromoteError>(ev)
            &&& post.has_slot(lang, sid)
            &&& post.slot(lang, sid).active_staging_id == staging_id
            &&& post.slot(lang, sid).active_hash == rec.content_hash
            &&& post.slot_version(lang, sid) == v + 1
            &&& post.slot_history(lang, sid) == pre.slot_history(lang, sid).push(ev)
            &&& forall|l: Seq<u8>, s: Seq<u8>|
                !(l == lang && s == sid) ==> (#[trigger] post.has_slot(l, s) == pre.has_slot(l, s)
                    && (pre.has_slot(l, s) ==> post.slot(l, s) == pre.slot(l, s)))
            &&& post.records_spec().len() == pre.records_spec().len()
            &&& forall|i: int|
                0 <= i < pre.records_spec().len() && i != idx ==> #[trigger] post.records_spec()[i]
                    == pre.records_spec()[i]
            &&& {
                let new_rec = post.records_spec()[idx];
                &&& new_rec.promoted_at == Some(ev.promoted_at)
                &&& new_rec.spec_result == rec.spec_result
                &&& new_rec.staging_id == rec.staging_id
                &&& new_rec.content_hash == rec.content_hash
                &&& new_rec.created_at == rec.created_at
                &&& new_rec.language@ == rec.language@
                &&& new_rec.engine@ == rec.engine@
                &&& new_rec.slot_id@ == rec.slot_id@
                &&& new_rec.label@ == rec.label@
            }
            &&& post.engines_spec() == pre.engines_spec()
            &&& post.store_spec() == pre.store_spec()
            &&& post.audit_spec() == pre.audit_spec().push(
                AuditEvent { kind: AuditKind::Promoted, staging_id, timestamp: ev.promoted_at },
            )
        }
    }
}

/// The version of the slot that the attempt `staging_id` targets.
pub open spec fn target_version(p: Pipeline, staging_id: u64) -> u64 {
    if p.has_record(staging_id) {
        p.slot_version(p.record(staging_id).language@, p.record(staging_id).slot_id@)
    } else {
        0
    }
}

/// The staging attempts, the slots, the audit log and the snippet store of
/// one deployment.
pub struct Pipeline {
    engines: Vec<Engine>,
    store: ContentStore,
    records: Vec<StagingRecord>,
    slots: Vec<Slot>,
    audit: Vec<AuditEvent>,
}

impl Pipeline {
    pub closed spec fn engines_spec(&self) -> Seq<Engine> {
        self.engines@
    }

    /// The stored snippet bodies.
    pub closed spec fn store_spec(&self) -> Seq<Seq<u8>> {
        self.store@
    }

    /// Every staging attempt, in the order of submission.
    pub closed spec fn records_spec(&self) -> Seq<StagingRecord> {
        self.records@
    }

    pub closed spec fn slots_spec(&self) -> Seq<Slot> {
        self.slots@
    }

    pub closed spec fn audit_spec(&self) -> Seq<AuditEvent> {
        self.audit@
    }

    pub open spec fn engine_known(&self, language: Seq<u8>, engine: Seq<u8>) -> bool {
        exists|i: int|
            0 <= i < self.engines_spec().len() && (#[trigger] self.engines_spec()[i]).language@
                == language && self.engines_spec()[i].name@ == engine
    }

    pub open spec fn has_record(&self, id: u64) -> bool {
        exists|i: int|
            0 <= i < self.records_spec().len() && (#[trigger] self.records_spec()[i]).staging_id
                == id
    }

    pub open spec fn record_index(&self, id: u64) -> int {
        choose|i: int|
            0 <= i < self.records_spec().len() && (#[trigger] self.records_spec()[i]).staging_id
                == id
    }

    /// The attempt with this staging id (meaningful where `has_record`).
    pub open spec fn record(&self, id: u64) -> StagingRecord {
        self.records_spec()[self.record_index(id)]
    }

    pub open spec fn has_slot(&self, language: Seq<u8>, slot_id: Seq<u8>) -> bool {
        exists|i: int|
            0 <= i < self.slots_spec().len() && slot_has_key(
                #[trigger] self.slots_spec()[i],
                language,
                slot_id,
            )
    }

    pub open spec fn slot_index(&self, language: Seq<u8>, slot_id: Seq<u8>) -> int {
        choose|i: int|
            0 <= i < self.slots_spec().len() && slot_has_key(
                #[trigger] self.slots_spec()[i],
                language,
                slot_id,
            )
    }

    /// The slot under this key (meaningful where `has_slot`).
    pub open spec fn slot(&self, language: Seq<u8>, slot_id: Seq<u8>) -> Slot {
        self.slots_spec()[self.slot_index(language, slot_id)]
    }

    /// A slot's version; 0 for a slot that nothing was promoted to yet.
    pub open spec fn slot_version(&self, language: Seq<u8>, slot_id: Seq<u8>) -> u64 {
        if self.has_slot(language, slot_id) {
            self.slot(language, slot_id).version
        } else {
            0
        }
    }

    /// A slot's promotions, oldest first; empty for a slot not yet created.
    pub open spec fn slot_history(&self, language: Seq<u8>, slot_id: Seq<u8>) -> Seq<
        PromotionEvent,
    > {
        if self.has_slot(language, slot_id) {
            self.slot(language, slot_id).history@
        } else {
            Seq::empty()
        }
    }

    /// Staging ids are unique; a slot key names one slot; a slot's version
    /// counts its promotions and its occupant is the last one promoted; a
    /// promoted attempt passed and was promoted no earlier than created.
    pub closed spec fn wf(&self) -> bool {
        &&& self.store.wf()
        &&& forall|i: int, j: int|
            0 <= i < self.records@.len() && 0 <= j < self.records@.len() && i != j
                ==> (#[trigger] self.records@[i]).staging_id != (#[trigger] self.records@[j]).staging_id
        &&& forall|i: int, j: int|
            0 <= i < self.slots@.len() && 0 <= j < self.slots@.len() && i != j ==> !slot_has_key(
                #[trigger] self.slots@[i],
                (#[trigger] self.slots@[j]).language@,
                self.slots@[j].slot_id@,
            )
        &&& forall|i: int|
            0 <= i < self.slots@.len() ==> {
                let s = #[trigger] self.slots@[i];
                &&& s.version as nat == s.history@.len()
                &&& s.history@.len() > 0
                &&& s.active_staging_id == s.history@.last().staging_id
                &&& s.active_hash == s.history@.last().content_hash
            }
        &&& forall|i: int|
            0 <= i < self.records@.len() ==> {
                let r = #[trigger] self.records@[i];
                r.promoted_at is Some ==> passed(r) && r.promoted_at->Some_0 >= r.created_at
            }
    }

    pub proof fn lemma_record_index(&self, i: int)
        requires
            self.wf(),
            0 <= i < self.records_spec().len(),
        ensures
            self.has_record(self.records_spec()[i].staging_id),
            self.record_index(self.records_spec()[i].staging_id) == i,
    {
        let id = self.records_spec()[i].staging_id;
        assert(self.records_spec()[i].staging_id == id);
        let j = self.record_index(id);
        if j != i {
            assert(self.records@[i].staging_id != self.records@[j].staging_id);
        }
    }

    pub proof fn lemma_slot_index(&self, i: int)
        requires
            self.wf(),
            0 <= i < self.slots_spec().len(),
        ensures
            self.has_slot(self.slots_spec()[i].language@, self.slots_spec()[i].slot_id@),
            self.slot_index(self.slots_spec()[i].language@, self.slots_spec()[i].slot_id@) == i,
    {
        let s = self.slots_spec()[i];
        assert(slot_has_key(self.slots_spec()[i], s.language@, s.slot_id@));
        let j = self.slot_index(s.language@, s.slot_id@);
        if j != i {
            assert(!slot_has_key(self.slots@[j], self.slots@[i].language@, self.slots@[i].slot_id@));
        }
    }

    /// An empty deployment that knows no engine.
    pub fn new() -> (p: Pipeline)
        ensures
            p.wf(),
            p.engines_spec().len() == 0,
            p.store_spec().len() == 0,
            p.records_spec().len() == 0,
            p.slots_spec().len() == 0,
            p.audit_spec().len() == 0,
    {
        Pipeline {
            engines: Vec::new(),
            store: ContentStore::new(),
            records: Vec::new(),
            slots: Vec::new(),
            audit: Vec::new(),
        }
    }

    fn find_engine(&self, language: &Vec<u8>, engine: &Vec<u8>) -> (found: bool)
        ensures
            found == self.engine_known(language@, engine@),
    {
        let mut i: usize = 0;
        while i < self.engines.len()
            invariant
                i <= self.engines.len(),
                forall|k: int|
                    0 <= k < i ==> !((#[trigger] self.engines@[k]).language@ == language@
                        && self.engines@[k].name@ == engine@),
            decreases self.engines.len() - i,
        {
            if bytes_equal(&self.engines[i].language, language) && bytes_equal(
                &self.engines[i].name,
                engine,
            ) {
                assert(self.engines_spec()[i as int].language@ == language@);
                return true;
            }
            i = i + 1;
        }
        false
    }

    /// Makes the engine `name` for `language` known; the result says whether
    /// it was new.
    pub fn register_engine(&mut self, language: &Vec<u8>, name: &Vec<u8>) -> (added: bool)
        requires
            old(self).wf(),
        ensures
            final(self).wf(),
            added == !old(self).engine_known(language@, name@),
            final(self).engine_known(language@, name@),
            forall|l: Seq<u8>, e: Seq<u8>|
                #[trigger] final(self).engine_known(l, e) == (old(self).engine_known(l, e) || (
                l == language@ && e == name@)),
            final(self).store_spec() == old(self).store_spec(),
            final(self).records_spec() == old(self).records_spec(),
            final(self).slots_spec() == old(self).slots_spec(),
            final(self).audit_spec() == old(self).audit_spec(),
    {
        if self.find_engine(language, name) {
            return false;
        }
        let ghost before = self.engines@;
        let e = Engine { language: language.clone(), name: name.clone() };
        assert(e.language@ == language@ && e.name@ == name@);
        self.engines.push(e);
        assert(self.engines_spec()[before.len() as int] == e);
        assert(before == old(self).engines_spec());
        assert forall|l: Seq<u8>, n: Seq<u8>|
            #[trigger] self.engine_known(l, n) == (old(self).engine_known(l, n) || (l == language@
                && n == name@)) by {
            if l == language@ && n == name@ {
                assert(self.engines_spec()[before.len() as int].language@ == l);
                assert(self.engine_known(l, n));
            }
            if old(self).engine_known(l, n) {
                let k = choose|k: int|
                    0 <= k < before.len() && (#[trigger] before[k]).language@ == l
                        && before[k].name@ == n;
                assert(self.engines_spec()[k] == before[k]);
                assert(self.engine_known(l, n));
            }
            if self.engine_known(l, n) && !(l == language@ && n == name@) {
                let k = choose|k: int|
                    0 <= k < self.engines_spec().len() && (
                    #[trigger] self.engines_spec()[k]).language@ == l
                        && self.engines_spec()[k].name@ == n;
                assert(k < before.len());
                assert(before[k] == self.engines_spec()[k]);
                assert(old(self).engine_known(l, n));
            }
        }
        true
    }

    fn find_record(&self, id: u64) -> (r: Option<usize>)
        requires
            self.wf(),
        ensures
            r is None <==> !self.has_record(id),
            r matches Some(i) ==> i < self.records_spec().len() && i == self.record_index(id),
    {
        let mut i: usize = 0;
        while i < self.records.len()
            invariant
                self.wf(),
                i <= self.records.len(),
                forall|k: int| 0 <= k < i ==> (#[trigger] self.records@[k]).staging_id != id,
            decreases self.records.len() - i,
        {
            if self.records[i].staging_id == id {
                proof {
                    self.lemma_record_index(i as int);
                }
                return Some(i);
            }
            i = i + 1;
        }
        None
    }

    fn find_slot(&self, language: &Vec<u8>, slot_id: &Vec<u8>) -> (r: Option<usize>)
        requires
            self.wf(),
        ensures
            r is None <==> !self.has_slot(language@, slot_id@),
            r matches Some(i) ==> i < self.slots_spec().len() && i == self.slot_index(
                language@,
                slot_id@,
            ),
    {
        let mut i: usize = 0;
        while i < self.slots.len()
            invariant
                self.wf(),
                i <= self.slots.len(),
                forall|k: int|
                    0 <= k < i ==> !slot_has_key(#[trigger] self.slots@[k], language@, slot_id@),
            decreases self.slots.len() - i,
        {
            if bytes_equal(&self.slots[i].language, language) && bytes_equal(
                &self.slots[i].slot_id,
                slot_id,
            ) {
                proof {
                    self.lemma_slot_index(i as int);
                }
                return Some(i);
            }
            i = i + 1;
        }
        None
    }
    /// Takes in a snippet: checks the engine, stores the normalised source
    /// and records a staged attempt under `staging_id`, a fresh token that
    /// the caller draws.
    pub fn submit(
        &mut self,
        language: &Vec<u8>,
        engine: &Vec<u8>,
        slot_id: &Vec<u8>,
        label: &Vec<u8>,
        source: &Vec<u8>,
        staging_id: u64,
        now: u64,
    ) -> (r: Result<u64, SubmitError>)
        requires
            old(self).wf(),
        ensures
            final(self).wf(),
            submit_post(
                *old(self),
                *final(self),
                language@,
                engine@,
                slot_id@,
                label@,
                source@,
                staging_id,
                now,
                r,
            ),
    {
        if !self.find_engine(language, engine) {
            return Err(SubmitError::InvalidEngine);
        }
        if self.find_record(staging_id).is_some() {
            return Err(SubmitError::DuplicateStagingId);
        }
        let norm = normalize(source);
        let h = match self.store.store(&norm) {
            Ok(h) => h,
            Err(StoreError::HashCollision { hash }) => {
                return Err(SubmitError::HashCollision { hash });
            },
        };
        let rec = StagingRecord {
            staging_id,
            content_hash: h,
            language: language.clone(),
            engine: engine.clone(),
            slot_id: slot_id.clone(),
            label: label.clone(),
            created_at: now,
            spec_result: None,
            promoted_at: None,
        };
        assert(rec.language@ == language@ && rec.engine@ == engine@);
        assert(rec.slot_id@ == slot_id@ && rec.label@ == label@);
        let ghost before = self.records@;
        self.records.push(rec);
        self.audit.push(
            AuditEvent { kind: AuditKind::StagingCreated, staging_id, timestamp: now },
        );
        assert(self.records@.drop_last() == before);
        assert forall|i: int, j: int|
            0 <= i < self.records@.len() && 0 <= j < self.records@.len() && i != j
                implies (#[trigger] self.records@[i]).staging_id != (
            #[trigger] self.records@[j]).staging_id by {
            if i == before.len() {
                assert(self.records@[j] == before[j]);
            } else if j == before.len() {
                assert(self.records@[i] == before[i]);
            } else {
                assert(self.records@[i] == before[i] && self.records@[j] == before[j]);
            }
        }
        assert forall|i: int| 0 <= i < self.records@.len() implies {
            let r = #[trigger] self.records@[i];
            r.promoted_at is Some ==> passed(r) && r.promoted_at->Some_0 >= r.created_at
        } by {
            if i < before.len() {
                assert(self.records@[i] == before[i]);
            }
        }
        Ok(staging_id)
    }

    /// Attaches the verdict on a run of the attempt `staging_id`: the run's
    /// output is held against `expected`, its elapsed time kept. A verdict
    /// is written once.
    pub fn verify(
        &mut self,
        staging_id: u64,
        outcome: &ExecutionOutcome,
        expected: &Vec<u8>,
        now: u64,
    ) -> (r: Result<SpecResult, VerifyError>)
        requires
            old(self).wf(),
        ensures
            final(self).wf(),
            verify_post(
                *old(self),
                *final(self),
                staging_id,
                judged_status(outcome.exit, outcome.stdout@, expected@),
                outcome.elapsed_micros,
                now,
                r,
            ),
    {
        let i = match self.find_record(staging_id) {
            Some(i) => i,
            None => {
                return Err(VerifyError::UnknownStagingId);
            },
        };
        if self.records[i].spec_result.is_some() {
            return Err(VerifyError::AlreadyVerified);
        }
        let res = judge(outcome, expected);
        let ghost before = self.records@;
        self.records[i].spec_result = Some(res);
        self.audit.push(
            AuditEvent { kind: AuditKind::ExecutionCompleted, staging_id, timestamp: now },
        );
        assert forall|a: int, b: int|
            0 <= a < self.records@.len() && 0 <= b < self.records@.len() && a != b
                implies (#[trigger] self.records@[a]).staging_id != (
            #[trigger] self.records@[b]).staging_id by {
            assert(before[a].staging_id == self.records@[a].staging_id);
            assert(before[b].staging_id == self.records@[b].staging_id);
        }
        assert forall|k: int| 0 <= k < self.records@.len() implies {
            let r = #[trigger] self.records@[k];
            r.promoted_at is Some ==> passed(r) && r.promoted_at->Some_0 >= r.created_at
        } by {
            if k != i {
                assert(self.records@[k] == before[k]);
            } else {
                assert(before[k].promoted_at is None);
            }
        }
        Ok(res)
    }
    /// The state after a promotion to slot `si` (an existing slot, or one
    /// appended at the end) of the attempt at `ri`, stamped at `t`, is well
    /// formed, and slots under other keys are untouched.
    proof fn lemma_after_slot_update(&self, pre: Pipeline, si: int, ri: int, id: u64, t: u64)
        requires
            pre.wf(),
            0 <= ri < pre.records@.len(),
            pre.records@[ri].staging_id == id,
            passed(pre.records@[ri]),
            t >= pre.records@[ri].created_at,
            0 <= si <= pre.slots@.len(),
            self.store == pre.store,
            self.engines == pre.engines,
            self.records@ == pre.records@.update(
                ri,
                StagingRecord { promoted_at: Some(t), ..pre.records@[ri] },
            ),
            si < self.slots@.len(),
            slot_has_key(self.slots@[si], pre.records@[ri].language@, pre.records@[ri].slot_id@),
            si < pre.slots@.len() ==> slot_has_key(
                pre.slots@[si],
                pre.records@[ri].language@,
                pre.records@[ri].slot_id@,
            ) && self.slots@ == pre.slots@.update(si, self.slots@[si]),
            si == pre.slots@.len() ==> !pre.has_slot(
                pre.records@[ri].language@,
                pre.records@[ri].slot_id@,
            ) && self.slots@ == pre.slots@.push(self.slots@[si]),
            self.slots@[si].version as nat == self.slots@[si].history@.len(),
            self.slots@[si].history@.len() > 0,
            self.slots@[si].active_staging_id == self.slots@[si].history@.last().staging_id,
            self.slots@[si].active_hash == self.slots@[si].history@.last().content_hash,
        ensures
            self.wf(),
            self.has_slot(pre.records@[ri].language@, pre.records@[ri].slot_id@),
            self.slot_index(pre.records@[ri].language@, pre.records@[ri].slot_id@) == si,
            pre.record_index(id) == ri,
            self.record_index(id) == ri,
            forall|l: Seq<u8>, s: Seq<u8>|
                !(l == pre.records@[ri].language@ && s == pre.records@[ri].slot_id@) ==> (
                #[trigger] self.has_slot(l, s) == pre.has_slot(l, s) && (pre.has_slot(l, s)
                    ==> self.slot(l, s) == pre.slot(l, s))),
    {
        let lang = pre.records@[ri].language@;
        let sid = pre.records@[ri].slot_id@;
        assert forall|i: int, j: int|
            0 <= i < self.records@.len() && 0 <= j < self.records@.len() && i != j
                implies (#[trigger] self.records@[i]).staging_id != (
            #[trigger] self.records@[j]).staging_id by {
            assert(pre.records@[i].staging_id == self.records@[i].staging_id);
            assert(pre.records@[j].staging_id == self.records@[j].staging_id);
        }
        assert forall|k: int| 0 <= k < self.records@.len() implies {
            let r = #[trigger] self.records@[k];
            r.promoted_at is Some ==> passed(r) && r.promoted_at->Some_0 >= r.created_at
        } by {
            if k != ri {
                assert(self.records@[k] == pre.records@[k]);
            }
        }
        assert forall|i: int, j: int|
            0 <= i < self.slots@.len() && 0 <= j < self.slots@.len() && i != j implies !slot_has_key(
            #[trigger] self.slots@[i],
            (#[trigger] self.slots@[j]).language@,
            self.slots@[j].slot_id@,
        ) by {
            if i == si {
                if j < pre.slots@.len() {
                    assert(self.slots@[j] == pre.slots@[j]);
                    if si < pre.slots@.len() {
                        assert(!slot_has_key(pre.slots@[si], pre.slots@[j].language@, pre.slots@[j].slot_id@));
                    } else {
                        assert(slot_has_key(pre.slots_spec()[j], lang, sid) ==> pre.has_slot(lang, sid));
                    }
                }
            } else if j == si {
                assert(self.slots@[i] == pre.slots@[i]);
                if si < pre.slots@.len() {
                    assert(!slot_has_key(pre.slots@[i], pre.slots@[si].language@, pre.slots@[si].slot_id@));
                } else {
                    assert(slot_has_key(pre.slots_spec()[i], lang, sid) ==> pre.has_slot(lang, sid));
                }
            } else {
                assert(self.slots@[i] == pre.slots@[i]);
                assert(self.slots@[j] == pre.slots@[j]);
            }
        }
        assert forall|i: int| 0 <= i < self.slots@.len() implies {
            let s = #[trigger] self.slots@[i];
            &&& s.version as nat == s.history@.len()
            &&& s.history@.len() > 0
            &&& s.active_staging_id == s.history@.last().staging_id
            &&& s.active_hash == s.history@.last().content_hash
        } by {
            if i != si {
                assert(self.slots@[i] == pre.slots@[i]);
            }
        }
        assert(self.wf());
        self.lemma_slot_index(si);
        pre.lemma_record_index(ri);
        self.lemma_record_index(ri);
        assert forall|l: Seq<u8>, s: Seq<u8>|
            !(l == lang && s == sid) implies (#[trigger] self.has_slot(l, s) == pre.has_slot(l, s)
                && (pre.has_slot(l, s) ==> self.slot(l, s) == pre.slot(l, s))) by {
            if pre.has_slot(l, s) {
                let j = pre.slot_index(l, s);
                assert(slot_has_key(pre.slots@[j], l, s));
                assert(j != si);
                assert(self.slots@[j] == pre.slots@[j]);
                pre.lemma_slot_index(j);
                self.lemma_slot_index(j);
            }
            if self.has_slot(l, s) {
                let j = self.slot_index(l, s);
                assert(slot_has_key(self.slots@[j], l, s));
                assert(j != si);
                assert(self.slots@[j] == pre.slots@[j]);
                assert(slot_has_key(pre.slots_spec()[j], l, s));
            }
        }
    }

    /// The version of the slot under this key; 0 where nothing was promoted.
    pub fn current_version(&self, language: &Vec<u8>, slot_id: &Vec<u8>) -> (v: u64)
        requires
            self.wf(),
        ensures
            v == self.slot_version(language@, slot_id@),
    {
        match self.find_slot(language, slot_id) {
            Some(i) => self.slots[i].version,
            None => 0,
        }
    }

    /// Makes the passing attempt `staging_id` the active occupant of its
    /// slot, provided the slot is still at `expected_version`, the version
    /// the caller read (compare-and-set).
    pub fn promote(&mut self, staging_id: u64, expected_version: u64, now: u64) -> (r: Result<
        PromotionEvent,
        PromoteError,
    >)
        requires
            old(self).wf(),
        ensures
            final(self).wf(),
            promote_post(*old(self), *final(self), staging_id, expected_version, now, r),
    {
        let i = match self.find_record(staging_id) {
            Some(i) => i,
            None => {
                return Err(PromoteError::UnknownStagingId);
            },
        };
        if self.records[i].promoted_at.is_some() {
            return Err(PromoteError::AlreadyPromoted);
        }
        let ok = match self.records[i].spec_result {
            Some(res) => res.status == SpecStatus::Pass,
            None => false,
        };
        if !ok {
            return Err(PromoteError::VerificationMismatch);
        }
        let found = self.find_slot(&self.records[i].language, &self.records[i].slot_id);
        let v = match found {
            Some(si) => self.slots[si].version,
            None => 0,
        };
        if expected_version != v {
            return Err(PromoteError::StaleSlotVersion { current: v });
        }
        if v == u64::MAX {
            return Err(PromoteError::VersionExhausted);
        }
        let created = self.records[i].created_at;
        let t = if now >= created {
            now
        } else {
            created
        };
        let hash = self.records[i].content_hash;
        let ghost pre = *self;
        let ghost rec = self.records@[i as int];
        let ghost lang = rec.language@;
        let ghost sid = rec.slot_id@;
        match found {
            Some(si) => {
                let outgoing = self.slots[si].active_staging_id;
                let ev = PromotionEvent {
                    staging_id,
                    content_hash: hash,
                    promoted_at: t,
                    outgoing_staging_id: Some(outgoing),
                };
                let ghost old_slot = self.slots@[si as int];
                assert(slot_has_key(pre.slots_spec()[si as int], lang, sid));
                self.slots[si].history.push(ev);
                self.slots[si].version = v + 1;
                self.slots[si].active_staging_id = staging_id;
                self.slots[si].active_hash = hash;
                assert(self.slots@ == pre.slots@.update(si as int, self.slots@[si as int]));
                assert(self.slots@[si as int].history@ == old_slot.history@.push(ev));
                self.records[i].promoted_at = Some(t);
                self.audit.push(
                    AuditEvent { kind: AuditKind::Promoted, staging_id, timestamp: t },
                );
                proof {
                    self.lemma_after_slot_update(pre, si as int, i as int, staging_id, t);
                    assert(ev == promotion_event(pre, rec, now));
                    assert(self.slot_history(lang, sid) == pre.slot_history(lang, sid).push(ev));
                }
                Ok(ev)
            },
            None => {
                let ev = PromotionEvent {
                    staging_id,
                    content_hash: hash,
                    promoted_at: t,
                    outgoing_staging_id: None,
                };
                let mut history: Vec<PromotionEvent> = Vec::new();
                history.push(ev);
                let slot = Slot {
                    language: self.records[i].language.clone(),
                    slot_id: self.records[i].slot_id.clone(),
                    active_staging_id: staging_id,
                    active_hash: hash,
                    version: 1,
                    history,
                };
                assert(slot.language@ == lang && slot.slot_id@ == sid);
                self.slots.push(slot);
                self.records[i].promoted_at = Some(t);
                self.audit.push(
                    AuditEvent { kind: AuditKind::Promoted, staging_id, timestamp: t },
                );
                proof {
                    self.lemma_after_slot_update(pre, pre.slots@.len() as int, i as int, staging_id, t);
                    assert(ev == promotion_event(pre, rec, now));
                    assert(self.slot_history(lang, sid) =~= pre.slot_history(lang, sid).push(ev));
                }
                Ok(ev)
            },
        }
    }
    /// Promotes the attempt `staging_id` against the version its slot has
    /// now; a compare-and-set that cannot be stale.
    pub fn promote_if_passing(&mut self, staging_id: u64, now: u64) -> (r: Result<
        PromotionEvent,
        PromoteError,
    >)
        requires
            old(self).wf(),
        ensures
            final(self).wf(),
            promote_post(
                *old(self),
                *final(self),
                staging_id,
                target_version(*old(self), staging_id),
                now,
                r,
            ),
            !(r matches Err(PromoteError::StaleSlotVersion { .. })),
    {
        let v = match self.find_record(staging_id) {
            Some(i) => self.current_version(&self.records[i].language, &self.records[i].slot_id),
            None => 0,
        };
        self.promote(staging_id, v, now)
    }

    /// Where the attempt `staging_id` stands.
    pub fn staging_status(&self, staging_id: u64) -> (r: Result<StagingStatus, LookupError>)
        requires
            self.wf(),
        ensures
            !self.has_record(staging_id) ==> r == Err::<StagingStatus, LookupError>(
                LookupError::UnknownStagingId,
            ),
            self.has_record(staging_id) ==> r == Ok::<StagingStatus, LookupError>(
                StagingStatus {
                    state: state_of(self.record(staging_id)),
                    content_hash: self.record(staging_id).content_hash,
                    spec_result: self.record(staging_id).spec_result,
                    promoted_at: self.record(staging_id).promoted_at,
                },
            ),
    {
        match self.find_record(staging_id) {
            None => Err(LookupError::UnknownStagingId),
            Some(i) => {
                let rec = &self.records[i];
                let state = if rec.promoted_at.is_some() {
                    StagingState::Promoted
                } else {
                    match rec.spec_result {
                        None => StagingState::Staged,
                        Some(res) => if res.status == SpecStatus::Pass {
                            StagingState::VerifiedPass
                        } else {
                            StagingState::VerifiedFail
                        },
                    }
                };
                Ok(
                    StagingStatus {
                        state,
                        content_hash: rec.content_hash,
                        spec_result: rec.spec_result,
                        promoted_at: rec.promoted_at,
                    },
                )
            },
        }
    }

    /// The slot under this key, with its promotions oldest first.
    pub fn get_slot(&self, language: &Vec<u8>, slot_id: &Vec<u8>) -> (r: Result<
        SlotInfo,
        LookupError,
    >)
        requires
            self.wf(),
        ensures
            !self.has_slot(language@, slot_id@) ==> r is Err && r->Err_0
                == LookupError::UnknownSlot,
            self.has_slot(language@, slot_id@) ==> r is Ok && {
                let info = r->Ok_0;
                let s = self.slot(language@, slot_id@);
                &&& info.active_staging_id == s.active_staging_id
                &&& info.active_hash == s.active_hash
                &&& info.version == s.version
                &&& info.history@ == s.history@
            },
    {
        match self.find_slot(language, slot_id) {
            None => Err(LookupError::UnknownSlot),
            Some(si) => {
                let s = &self.slots[si];
                let mut history: Vec<PromotionEvent> = Vec::new();
                let mut k: usize = 0;
                while k < s.history.len()
                    invariant
                        k <= s.history.len(),
                        history@ == s.history@.subrange(0, k as int),
                    decreases s.history.len() - k,
                {
                    history.push(s.history[k]);
                    k = k + 1;
                    assert(history@ =~= s.history@.subrange(0, k as int));
                }
                assert(history@ =~= s.history@);
                Ok(
                    SlotInfo {
                        active_staging_id: s.active_staging_id,
                        active_hash: s.active_hash,
                        version: s.version,
                        history,
                    },
                )
            },
        }
    }

    /// The staging ids of every attempt whose source hashes to `h`, oldest
    /// first: the repeated runs of one snippet.
    pub fn attempts_with_hash(&self, h: u64) -> (ids: Vec<u64>)
        ensures
            ids@ == ids_with_hash(self.records_spec(), h),
    {
        let mut ids: Vec<u64> = Vec::new();
        let mut i: usize = 0;
        while i < self.records.len()
            invariant
                i <= self.records.len(),
                ids@ == ids_with_hash(self.records@.subrange(0, i as int), h),
            decreases self.records.len() - i,
        {
            let ghost prefix = self.records@.subrange(0, i + 1);
            assert(prefix.drop_last() == self.records@.subrange(0, i as int));
            if self.records[i].content_hash == h {
                ids.push(self.records[i].staging_id);
            }
            i = i + 1;
        }
        assert(self.records@ == self.records@.subrange(0, self.records.len() as int));
        ids
    }

    /// The stored source with content hash `h`.
    pub fn fetch_source(&self, h: u64) -> (r: Option<Vec<u8>>)
        requires
            self.wf(),
        ensures
            match r {
                Some(v) => self.store_spec().contains(v@) && content_hash(v@) == h,
                None => forall|i: int|
                    0 <= i < self.store_spec().len() ==> content_hash(
                        #[trigger] self.store_spec()[i],
                    ) != h,
            },
    {
        self.store.fetch(h)
    }

    /// The audit log, oldest entry first.
    pub fn audit_log(&self) -> (log: Vec<AuditEvent>)
        ensures
            log@ == self.audit_spec(),
    {
        let mut log: Vec<AuditEvent> = Vec::new();
        let mut k: usize = 0;
        while k < self.audit.len()
            invariant
                k <= self.audit.len(),
                log@ == self.audit@.subrange(0, k as int),
            decreases self.audit.len() - k,
        {
            log.push(self.audit[k]);
            k = k + 1;
            assert(log@ =~= self.audit@.subrange(0, k as int));
        }
        assert(log@ =~= self.audit@);
        log
    }

    /// The number of staging attempts so far.
    pub fn staging_count(&self) -> (n: usize)
        ensures
            n == self.records_spec().len(),
    {
        self.records.len()
    }
}

/// A verdict is written once: after a successful `verify` of an attempt, a
/// second `verify` of it is refused with `AlreadyVerified`, changes nothing,
/// and the attempt keeps the first verdict.
pub proof fn lemma_verdict_written_once(
    p0: Pipeline,
    p1: Pipeline,
    p2: Pipeline,
    staging_id: u64,
    status1: SpecStatus,
    elapsed1: u64,
    now1: u64,
    r1: Result<SpecResult, VerifyError>,
    status2: SpecStatus,
    elapsed2: u64,
    now2: u64,
    r2: Result<SpecResult, VerifyError>,
)
    requires
        p0.wf(),
        p1.wf(),
        verify_post(p0, p1, staging_id, status1, elapsed1, now1, r1),
        r1 is Ok,
        verify_post(p1, p2, staging_id, status2, elapsed2, now2, r2),
    ensures
        r2 == Err::<SpecResult, VerifyError>(VerifyError::AlreadyVerified),
        p2 == p1,
        p1.has_record(staging_id),
        p1.record(staging_id).spec_result == Some(r1->Ok_0),
{
    let idx = p0.record_index(staging_id);
    assert(p1.records_spec()[idx].staging_id == staging_id);
    p1.lemma_record_index(idx);
}

/// Only a passing attempt is promoted; one whose verdict is anything else is
/// refused with `VerificationMismatch`, whatever version and time are given.
pub proof fn lemma_promote_needs_pass(
    pre: Pipeline,
    post: Pipeline,
    staging_id: u64,
    expected_version: u64,
    now: u64,
    r: Result<PromotionEvent, PromoteError>,
)
    requires
        pre.wf(),
        promote_post(pre, post, staging_id, expected_version, now, r),
    ensures
        r is Ok ==> pre.has_record(staging_id) && passed(pre.record(staging_id)),
        pre.has_record(staging_id) && !passed(pre.record(staging_id)) ==> r == Err::<
            PromotionEvent,
            PromoteError,
        >(PromoteError::VerificationMismatch) && post == pre,
{
    if pre.has_record(staging_id) {
        let idx = pre.record_index(staging_id);
        assert(pre.records_spec()[idx].staging_id == staging_id);
    }
}

/// A timed-out run is judged `Timeout`, and an attempt with that verdict is
/// never promoted: `promote` refuses it with `VerificationMismatch`.
pub proof fn lemma_timeout_never_promoted(
    stdout: Seq<u8>,
    expected: Seq<u8>,
    pre: Pipeline,
    post: Pipeline,
    staging_id: u64,
    expected_version: u64,
    now: u64,
    r: Result<PromotionEvent, PromoteError>,
)
    requires
        pre.wf(),
        pre.has_record(staging_id),
        pre.record(staging_id).spec_result matches Some(res) && res.status == SpecStatus::Timeout,
        promote_post(pre, post, staging_id, expected_version, now, r),
    ensures
        judged_status(crate::sandbox::ExitStatus::TimedOut, stdout, expected) == SpecStatus::Timeout,
        r == Err::<PromotionEvent, PromoteError>(PromoteError::VerificationMismatch),
        post == pre,
{
    lemma_promote_needs_pass(pre, post, staging_id, expected_version, now, r);
}

/// A successful promotion makes the attempt its slot's occupant, with the
/// attempt's content hash; the slot's history grows by exactly one event and
/// its version by exactly one.
pub proof fn lemma_promotion_effect(
    pre: Pipeline,
    post: Pipeline,
    staging_id: u64,
    expected_version: u64,
    now: u64,
    r: Result<PromotionEvent, PromoteError>,
)
    requires
        pre.wf(),
        promote_post(pre, post, staging_id, expected_version, now, r),
        r is Ok,
    ensures
        pre.has_record(staging_id),
        ({
            let rec = pre.record(staging_id);
            let (l, s) = (rec.language@, rec.slot_id@);
            &&& post.slot(l, s).active_staging_id == staging_id
            &&& post.slot(l, s).active_hash == rec.content_hash
            &&& post.slot_history(l, s).len() == pre.slot_history(l, s).len() + 1
            &&& post.slot_version(l, s) == pre.slot_version(l, s) + 1
        }),
{
}

/// Of promotions to one slot that read the same version, one succeeds: once
/// a promotion at version `v` went through, any later promotion to that slot
/// made against `v` is refused and leaves everything as it was; one of a
/// passing, unpromoted attempt is refused as stale, with the new version.
pub proof fn lemma_one_winner_per_version(
    p0: Pipeline,
    p1: Pipeline,
    p2: Pipeline,
    x: u64,
    y: u64,
    v: u64,
    now1: u64,
    now2: u64,
    r1: Result<PromotionEvent, PromoteError>,
    r2: Result<PromotionEvent, PromoteError>,
)
    requires
        p0.wf(),
        p1.wf(),
        promote_post(p0, p1, x, v, now1, r1),
        r1 is Ok,
        promote_post(p1, p2, y, v, now2, r2),
        p1.has_record(y),
        p1.record(y).language@ == p0.record(x).language@,
        p1.record(y).slot_id@ == p0.record(x).slot_id@,
    ensures
        r2 is Err,
        p2 == p1,
        passed(p1.record(y)) && p1.record(y).promoted_at is None ==> r2 == Err::<
            PromotionEvent,
            PromoteError,
        >(PromoteError::StaleSlotVersion { current: (v + 1) as u64 }),
{
}

} // verus!
