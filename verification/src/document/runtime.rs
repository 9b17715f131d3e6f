//! The document runtime: the registry of jobs and committed snapshots, with
//! per-document request sequence numbers for freshness.
use std::collections::BTreeMap;
use vstd::prelude::*;
use vstd::std_specs::iter::IteratorSpec;
use crate::text::{str_eq, u64_to_decimal, decimal};
use super::keyed::{str_lookup, str_position, str_put};

use super::job_entry::{DocumentJobHandle, JobEntry};
use super::protocol::{
    copy_string, DocumentJobSpec, JobTerminal, SnapshotId, EventBatch, DocumentEvent, CommitMode, ProjectionDelta,
    ProjectionRequest, QueryResult, SnapshotQuery, SnapshotReadResult,
};
use super::metrics::{saturating_inc, DocumentEngineMetrics};
use super::snapshot::DocumentSnapshot;

verus! {

broadcast use vstd::std_specs::btree::group_btree_axioms;

#[derive(Debug)]
pub struct DocumentRuntime {
    next_job_handle: u64,
    next_snapshot_id: u64,
    /// Per-document request sequence counter for freshness/stale detection.
    request_seq_by_document: Vec<(String, u64)>,
    jobs: BTreeMap<u64, JobEntry>,
    snapshots: BTreeMap<u64, DocumentSnapshot>,
    latest_snapshot_by_document: Vec<(String, SnapshotId)>,
}

#[derive(Debug, Clone, Copy, PartialEq, Eq)]
pub enum RuntimeAccessError {
    Busy,
}

impl RuntimeAccessError {
    /// The error's message.
    pub fn message(&self) -> (r: &'static str)
        ensures
            r@ == "document runtime is already borrowed"@,
    {
        "document runtime is already borrowed"
    }
}

#[derive(Debug, Clone, Copy, PartialEq, Eq)]
pub struct StartedDocumentJob {
    pub handle: DocumentJobHandle,
    pub request_seq: u64,
}

/// Whether a snapshot may be read for a request.
#[derive(Debug, Clone, Copy)]
pub enum SnapshotReadState<'a> {
    Ready(&'a DocumentSnapshot),
    Missing,
    DocumentIdentityMismatch,
    SemanticDataUnavailable,
}

impl DocumentRuntime {
    /// The well-formedness of the runtime: job handles and snapshot ids
    /// occur once each, a stored snapshot carries the id it is stored
    /// under, and no stored or latest id is past the last one allocated.
    pub closed spec fn wf(&self) -> bool {
        &&& forall|id: u64| #[trigger] self.snapshots@.contains_key(id)
            ==> self.snapshots@[id].snapshot_id.0 == id && id <= self.next_snapshot_id
        &&& forall|k: Seq<char>| #[trigger] str_lookup(self.latest_snapshot_by_document@, k) matches Some(i)
            ==> i.0 <= self.next_snapshot_id
    }

    /// The job registered under handle `h`.
    pub closed spec fn job_of(&self, h: u64) -> Option<JobEntry> {
        if self.jobs@.contains_key(h) {
            Some(self.jobs@[h])
        } else {
            None
        }
    }

    /// The snapshot stored under id `id`.
    pub closed spec fn stored(&self, id: u64) -> Option<DocumentSnapshot> {
        if self.snapshots@.contains_key(id) {
            Some(self.snapshots@[id])
        } else {
            None
        }
    }

    /// The latest authoritative snapshot of a document.
    pub closed spec fn latest_of(&self, key: Seq<char>) -> Option<SnapshotId> {
        str_lookup(self.latest_snapshot_by_document@, key)
    }

    /// The latest request sequence number allocated for a document (zero
    /// before the first).
    pub closed spec fn seq_of(&self, key: Seq<char>) -> u64 {
        match str_lookup(self.request_seq_by_document@, key) {
            Some(v) => v,
            None => 0,
        }
    }

    /// The last job handle allocated.
    pub closed spec fn last_handle(&self) -> u64 {
        self.next_job_handle
    }

    /// The last snapshot id allocated or seen.
    pub closed spec fn last_snapshot_id(&self) -> u64 {
        self.next_snapshot_id
    }

    /// Everything but the jobs is as in `other`.
    pub open spec fn same_but_jobs(&self, other: &Self) -> bool {
        &&& forall|id: u64| self.stored(id) == other.stored(id)
        &&& forall|k: Seq<char>| self.latest_of(k) == other.latest_of(k)
        &&& forall|k: Seq<char>| self.seq_of(k) == other.seq_of(k)
        &&& self.last_handle() == other.last_handle()
        &&& self.last_snapshot_id() == other.last_snapshot_id()
    }

    /// Nothing observable differs from `other`.
    pub open spec fn same_as(&self, other: &Self) -> bool {
        &&& self.same_but_jobs(other)
        &&& forall|h: u64| self.job_of(h) == other.job_of(h)
    }

    /// An empty runtime.
    pub fn new() -> (r: Self)
        ensures
            r.wf(),
            forall|h: u64| r.job_of(h) is None,
            forall|id: u64| r.stored(id) is None,
            forall|k: Seq<char>| r.latest_of(k) is None,
            forall|k: Seq<char>| r.seq_of(k) == 0,
            r.last_handle() == 0,
            r.last_snapshot_id() == 0,
    {
        DocumentRuntime {
            next_job_handle: 0,
            next_snapshot_id: 0,
            request_seq_by_document: Vec::new(),
            jobs: BTreeMap::new(),
            snapshots: BTreeMap::new(),
            latest_snapshot_by_document: Vec::new(),
        }
    }

    /// Allocates the next job handle; the counter stops at `u64::MAX`.
    pub fn allocate_job_handle(&mut self) -> (r: DocumentJobHandle)
        ensures
            r.0 == saturating_inc(old(self).last_handle()),
            final(self).last_handle() == r.0,
            forall|h: u64| final(self).job_of(h) == old(self).job_of(h),
            forall|id: u64| final(self).stored(id) == old(self).stored(id),
            forall|k: Seq<char>| final(self).latest_of(k) == old(self).latest_of(k),
            forall|k: Seq<char>| final(self).seq_of(k) == old(self).seq_of(k),
            final(self).last_snapshot_id() == old(self).last_snapshot_id(),
            old(self).wf() ==> final(self).wf(),
    {
        self.next_job_handle = self.next_job_handle.saturating_add(1);
        DocumentJobHandle(self.next_job_handle)
    }

    /// Allocates a monotonic request sequence number for the document; the
    /// runtime uses it for freshness/stale detection.
    pub fn allocate_request_seq(&mut self, document_key: &str) -> (r: u64)
        ensures
            r == saturating_inc(old(self).seq_of(document_key@)),
            forall|k: Seq<char>| final(self).seq_of(k) == (if k == document_key@ { r } else { old(self).seq_of(k) }),
            forall|h: u64| final(self).job_of(h) == old(self).job_of(h),
            forall|id: u64| final(self).stored(id) == old(self).stored(id),
            forall|k: Seq<char>| final(self).latest_of(k) == old(self).latest_of(k),
            final(self).last_handle() == old(self).last_handle(),
            final(self).last_snapshot_id() == old(self).last_snapshot_id(),
            old(self).wf() ==> final(self).wf(),
    {
        let current: u64 = match str_position(&self.request_seq_by_document, document_key) {
            Some(i) => self.request_seq_by_document[i].1,
            None => 0,
        };
        let next = current.saturating_add(1);
        str_put(&mut self.request_seq_by_document, document_key.to_owned(), next);
        next
    }

    /// Whether a newer request sequence number than `request_seq` has been
    /// allocated for the document.
    pub fn is_stale(&self, document_key: &str, request_seq: u64) -> (r: bool)
        ensures
            r == (self.seq_of(document_key@) > request_seq),
    {
        match str_position(&self.request_seq_by_document, document_key) {
            Some(i) => self.request_seq_by_document[i].1 > request_seq,
            None => false,
        }
    }

    /// Allocates the next snapshot id; the counter stops at `u64::MAX`.
    fn allocate_snapshot_id(&mut self) -> (r: SnapshotId)
        ensures
            r.0 == saturating_inc(old(self).last_snapshot_id()),
            final(self).last_snapshot_id() == r.0,
            final(self).jobs == old(self).jobs,
            final(self).snapshots == old(self).snapshots,
            final(self).latest_snapshot_by_document == old(self).latest_snapshot_by_document,
            final(self).request_seq_by_document == old(self).request_seq_by_document,
            final(self).next_job_handle == old(self).next_job_handle,
    {
        self.next_snapshot_id = self.next_snapshot_id.saturating_add(1);
        SnapshotId(self.next_snapshot_id)
    }

    /// The latest authoritative snapshot id of the document.
    pub fn latest_authoritative_snapshot_id(&self, document_key: &str) -> (r: Option<SnapshotId>)
        ensures
            r == self.latest_of(document_key@),
    {
        match str_position(&self.latest_snapshot_by_document, document_key) {
            Some(i) => Some(self.latest_snapshot_by_document[i].1),
            None => None,
        }
    }
}

/// The terminal of a request for a job that is not registered.
pub open spec fn is_missing_job_terminal(t: JobTerminal, handle: u64) -> bool {
    t matches JobTerminal::Rejected { code, detail } && code@ == "document_runtime_missing_job"@
        && detail@ == "No document runtime job registered for handle "@ + decimal(handle as nat)
}

/// The rejection for a handle that no job is registered under.
pub fn missing_job_terminal(handle: DocumentJobHandle) -> (r: JobTerminal)
    ensures
        is_missing_job_terminal(r, handle.0),
{
    let mut detail = String::new();
    crate::text::push_str(&mut detail, "No document runtime job registered for handle ");
    crate::text::push_decimal(&mut detail, handle.0);
    JobTerminal::Rejected { code: "document_runtime_missing_job".to_owned(), detail }
}

/// The entry after a commit of snapshot `id` for document `key`: an
/// active job of that document records the snapshot.
pub open spec fn stamp_job(e: JobEntry, key: Seq<char>, id: SnapshotId) -> JobEntry {
    if e.spec.document_key@ == key && e.terminal is None {
        JobEntry { latest_snapshot_id: Some(id), ..e }
    } else {
        e
    }
}

impl DocumentRuntime {
    /// Registers `entry` under `handle`, replacing a job registered there.
    pub fn insert_job_entry_for_test(&mut self, handle: DocumentJobHandle, entry: JobEntry)
        ensures
            forall|h: u64| final(self).job_of(h) == (if h == handle.0 { Some(entry) } else { old(self).job_of(h) }),
            final(self).same_but_jobs(old(self)),
            old(self).wf() ==> final(self).wf(),
    {
        let _ = self.jobs.insert(handle.0, entry);
    }

    /// Starts a job: allocates its handle and its document's next request
    /// sequence number, and registers a fresh entry.
    pub fn insert_job(&mut self, spec: DocumentJobSpec) -> (r: StartedDocumentJob)
        ensures
            r.handle.0 == saturating_inc(old(self).last_handle()),
            r.request_seq == saturating_inc(old(self).seq_of(spec.document_key@)),
            final(self).last_handle() == r.handle.0,
            forall|k: Seq<char>| final(self).seq_of(k) == (if k == spec.document_key@ { r.request_seq } else { old(self).seq_of(k) }),
            forall|h: u64| h != r.handle.0 ==> final(self).job_of(h) == old(self).job_of(h),
            final(self).job_of(r.handle.0) matches Some(e) && e.spec == spec && e.request_seq == r.request_seq
                && e.latest_snapshot_id is None && e.terminal is None && e.source_buffer is None
                && e.source_bytes is None && e.line_count == 0,
            forall|id: u64| final(self).stored(id) == old(self).stored(id),
            forall|k: Seq<char>| final(self).latest_of(k) == old(self).latest_of(k),
            final(self).last_snapshot_id() == old(self).last_snapshot_id(),
            old(self).wf() ==> final(self).wf(),
    {
        let handle = self.allocate_job_handle();
        let request_seq = self.allocate_request_seq(spec.document_key.as_str());
        let ghost mid = *self;
        let ghost key = spec.document_key@;
        let _ = self.jobs.insert(handle.0, JobEntry::new(spec, request_seq));
        assert forall|k: Seq<char>| self.seq_of(k) == (if k == key { request_seq } else { old(self).seq_of(k) }) by {
            assert(self.seq_of(k) == mid.seq_of(k));
        }
        StartedDocumentJob { handle, request_seq }
    }

    /// The job registered under `handle`.
    pub fn job(&self, handle: DocumentJobHandle) -> (r: Option<&JobEntry>)
        ensures
            match r {
                Some(e) => self.job_of(handle.0) == Some(*e),
                None => self.job_of(handle.0) is None,
            },
    {
        self.jobs.get(&handle.0)
    }

    /// The request sequence number and terminal of the job.
    pub fn job_lifecycle(&self, handle: DocumentJobHandle) -> (r: Option<(u64, Option<JobTerminal>)>)
        ensures
            r == (match self.job_of(handle.0) {
                Some(e) => Some((e.request_seq, e.terminal)),
                None => None,
            }),
    {
        match self.job(handle) {
            Some(entry) => {
                let terminal = match &entry.terminal {
                    Some(t) => Some(t.duplicate()),
                    None => None,
                };
                Some((entry.request_seq, terminal))
            },
            None => None,
        }
    }

    /// The latest snapshot recorded by the job.
    pub fn job_snapshot_id(&self, handle: DocumentJobHandle) -> (r: Option<SnapshotId>)
        ensures
            r == (match self.job_of(handle.0) {
                Some(e) => e.latest_snapshot_id,
                None => None,
            }),
    {
        match self.job(handle) {
            Some(entry) => entry.latest_snapshot_id,
            None => None,
        }
    }

    /// The handles of the jobs that have no terminal yet.
    pub open spec fn active_handles(&self) -> Set<u64> {
        Set::new(|h: u64| self.job_of(h) matches Some(e) && e.terminal is None)
    }

    /// The number of jobs without a terminal.
    pub fn active_job_count(&self) -> (r: usize)
        requires
            self.wf(),
        ensures
            self.active_handles().finite(),
            r == self.active_handles().len(),
    {
        let total = self.jobs.len();
        let mut count: usize = 0;
        let ghost mut seen: Set<u64> = Set::empty();
        for kv in it: self.jobs.iter()
            invariant
                it.seq() == vstd::std_specs::btree::spec_btree_map_iter(&self.jobs).remaining(),
                it.seq().len() == self.jobs@.dom().len(),
                self.jobs@.dom().len() == total,
                it.seq().no_duplicates(),
                seen.finite(),
                count == seen.len(),
                count <= it.index(),
                forall|h: u64| seen.contains(h) <==> exists|j: int|
                    0 <= j < it.index() && *it.seq()[j].0 == h && (*it.seq()[j].1).terminal is None,
        {
            let (h, entry) = kv;
            let ghost idx = it.index();
            proof {
                assert(self.jobs@.contains_key(*h) && self.jobs@[*h] == *entry);
            }
            if entry.terminal.is_none() {
                proof {
                    assert(!seen.contains(*h)) by {
                        if seen.contains(*h) {
                            let j = choose|j: int| 0 <= j < idx && *it.seq()[j].0 == *h && (*it.seq()[j].1).terminal is None;
                            assert(self.jobs@[*it.seq()[j].0] == *it.seq()[j].1);
                            assert(it.seq()[j] == it.seq()[idx]);
                        }
                    }
                    seen = seen.insert(*h);
                }
                count = count + 1;
            }
        }
        proof {
            let v = vstd::std_specs::btree::spec_btree_map_iter(&self.jobs).remaining();
            assert forall|h: u64| self.active_handles().contains(h) <==> seen.contains(h) by {
                if self.active_handles().contains(h) {
                    assert(v.contains((&h, &self.jobs@[h])));
                }
            }
            assert(self.active_handles() =~= seen);
        }
        count
    }

    /// Whether a job of the document has no terminal yet.
    pub fn contains_active_document(&self, document_key: &str) -> (r: bool)
        requires
            self.wf(),
        ensures
            r == exists|h: u64| #[trigger] self.job_of(h) matches Some(e) && e.terminal is None && e.spec.document_key@ == document_key@,
    {
        for kv in it: self.jobs.iter()
            invariant
                it.seq() == vstd::std_specs::btree::spec_btree_map_iter(&self.jobs).remaining(),
                forall|j: int| 0 <= j < it.index() ==> !((*it.seq()[j].1).terminal is None
                    && (*it.seq()[j].1).spec.document_key@ == document_key@),
        {
            let (h, entry) = kv;
            if entry.terminal.is_none() && str_eq(entry.spec.document_key.as_str(), document_key) {
                proof {
                    assert(self.jobs@.contains_key(*h) && self.jobs@[*h] == *entry);
                    assert(self.job_of(*h) == Some(*entry));
                }
                return true;
            }
        }
        proof {
            let v = vstd::std_specs::btree::spec_btree_map_iter(&self.jobs).remaining();
            assert forall|h: u64| !(#[trigger] self.job_of(h) matches Some(e) && e.terminal is None && e.spec.document_key@ == document_key@) by {
                if self.jobs@.contains_key(h) {
                    assert(v.contains((&h, &self.jobs@[h])));
                }
            }
        }
        false
    }
}

impl DocumentRuntime {
    /// `h` is the newest job of the document.
    pub open spec fn is_latest_job(&self, h: u64, key: Seq<char>) -> bool {
        &&& self.job_of(h) matches Some(e) && e.spec.document_key@ == key
        &&& forall|h2: u64| #[trigger] self.job_of(h2) matches Some(e2) && e2.spec.document_key@ == key ==> h2 <= h
    }

    /// Some job of the document is registered.
    pub open spec fn has_job_for(&self, key: Seq<char>) -> bool {
        exists|h: u64| #[trigger] self.job_of(h) matches Some(e) && e.spec.document_key@ == key
    }

    /// The handle of the newest job of the document.
    fn latest_job_handle(&self, document_key: &str) -> (r: Option<u64>)
        ensures
            r matches Some(h) ==> self.is_latest_job(h, document_key@),
            r is None ==> !self.has_job_for(document_key@),
    {
        let mut best: Option<u64> = None;
        for kv in it: self.jobs.iter()
            invariant
                it.seq() == vstd::std_specs::btree::spec_btree_map_iter(&self.jobs).remaining(),
                best matches Some(b) ==> self.job_of(b) matches Some(e) && e.spec.document_key@ == document_key@
                    && forall|j: int| 0 <= j < it.index() && (*it.seq()[j].1).spec.document_key@ == document_key@
                        ==> *it.seq()[j].0 <= b,
                best is None ==> forall|j: int| 0 <= j < it.index() ==> (*it.seq()[j].1).spec.document_key@ != document_key@,
        {
            let (h, entry) = kv;
            proof {
                assert(self.jobs@.contains_key(*h) && self.jobs@[*h] == *entry);
            }
            if str_eq(entry.spec.document_key.as_str(), document_key) {
                match best {
                    Some(b) => {
                        if *h > b {
                            best = Some(*h);
                        }
                    },
                    None => {
                        best = Some(*h);
                    },
                }
            }
        }
        proof {
            let v = vstd::std_specs::btree::spec_btree_map_iter(&self.jobs).remaining();
            assert forall|h2: u64| #[trigger] self.job_of(h2) matches Some(e2) && e2.spec.document_key@ == document_key@
                implies best matches Some(b) && h2 <= b by {
                assert(v.contains((&h2, &self.jobs@[h2])));
                let j = choose|j: int| 0 <= j < v.len() && v[j] == (&h2, &self.jobs@[h2]);
                assert(*v[j].0 == h2);
            }
        }
        best
    }

    /// The terminal of the document's newest job.
    pub fn latest_terminal_for_document(&self, document_key: &str) -> (r: Option<JobTerminal>)
        requires
            self.wf(),
        ensures
            self.has_job_for(document_key@) ==> exists|h: u64| self.is_latest_job(h, document_key@),
            forall|h: u64| self.is_latest_job(h, document_key@) ==> r == self.job_of(h)->Some_0.terminal,
            !self.has_job_for(document_key@) ==> r is None,
    {
        match self.latest_job_handle(document_key) {
            Some(b) => {
                proof {
                    assert forall|h: u64| self.is_latest_job(h, document_key@) implies h == b by {}
                }
                match self.job(DocumentJobHandle(b)) {
                    Some(entry) => match &entry.terminal {
                        Some(t) => Some(t.duplicate()),
                        None => None,
                    },
                    None => None,
                }
            },
            None => None,
        }
    }

    /// The specification of the document's newest job.
    pub fn latest_job_spec_for_document(&self, document_key: &str) -> (r: Option<DocumentJobSpec>)
        requires
            self.wf(),
        ensures
            self.has_job_for(document_key@) ==> exists|h: u64| self.is_latest_job(h, document_key@),
            forall|h: u64| self.is_latest_job(h, document_key@) ==> (r matches Some(spec) && spec.same_as(&self.job_of(h)->Some_0.spec)),
            !self.has_job_for(document_key@) ==> r is None,
    {
        match self.latest_job_handle(document_key) {
            Some(b) => {
                proof {
                    assert forall|h: u64| self.is_latest_job(h, document_key@) implies h == b by {}
                }
                match self.job(DocumentJobHandle(b)) {
                    Some(entry) => Some(entry.spec.duplicate()),
                    None => None,
                }
            },
            None => None,
        }
    }
}

/// The snapshot as stored: its id assigned and its document named.
pub open spec fn is_stored_form(s: DocumentSnapshot, snapshot: DocumentSnapshot, id: SnapshotId, key: Seq<char>) -> bool {
    &&& s.snapshot_id == id
    &&& s.document_key@ == key
    &&& s.analysis == snapshot.analysis
    &&& s.graph == snapshot.graph
    &&& s.incremental == snapshot.incremental
}

/// The id a snapshot is stored under: its own id, or the next one
/// allocated when it has none.
pub open spec fn assigned_id(last_snapshot_id: u64, snapshot: DocumentSnapshot) -> SnapshotId {
    if snapshot.snapshot_id.0 == 0 {
        SnapshotId(saturating_inc(last_snapshot_id))
    } else {
        snapshot.snapshot_id
    }
}

/// How a read of a stored snapshot is answered.
pub open spec fn read_state_matches(r: SnapshotReadState, stored: Option<DocumentSnapshot>, key: Option<Seq<char>>) -> bool {
    match stored {
        None => r is Missing,
        Some(s) => if key matches Some(k) && s.document_key@ != k {
            r is DocumentIdentityMismatch
        } else if !(s.analysis matches Some(a) && a.document is Some) {
            r is SemanticDataUnavailable
        } else {
            r matches SnapshotReadState::Ready(x) && *x == s
        },
    }
}

impl DocumentRuntime {
    /// The non-job part of storing `snapshot` for document `key` as
    /// snapshot `id` takes `old` to `new`.
    pub open spec fn snapshot_store_effect(
        old: &Self,
        new: &Self,
        key: Seq<char>,
        snapshot: DocumentSnapshot,
        authoritative: bool,
    ) -> bool {
        let id = assigned_id(old.last_snapshot_id(), snapshot);
        &&& new.last_snapshot_id() == (if snapshot.snapshot_id.0 == 0 {
            id.0
        } else if old.last_snapshot_id() >= id.0 {
            old.last_snapshot_id()
        } else {
            id.0
        })
        &&& new.stored(id.0) matches Some(s) && is_stored_form(s, snapshot, id, key)
        &&& forall|other: u64| other != id.0 ==> new.stored(other) == old.stored(other)
        &&& forall|k: Seq<char>| new.latest_of(k) == (if authoritative && k == key { Some(id) } else { old.latest_of(k) })
        &&& forall|k: Seq<char>| new.seq_of(k) == old.seq_of(k)
        &&& new.last_handle() == old.last_handle()
    }

    /// The snapshot stored under the id.
    pub fn snapshot(&self, snapshot_id: SnapshotId) -> (r: Option<&DocumentSnapshot>)
        ensures
            match r {
                Some(s) => self.stored(snapshot_id.0) == Some(*s),
                None => self.stored(snapshot_id.0) is None,
            },
    {
        broadcast use vstd::std_specs::btree::group_btree_axioms;
        self.snapshots.get(&snapshot_id.0)
    }

    /// The stored snapshot of the document with the greatest id.
    pub fn newest_snapshot_for_document(&self, document_key: &str) -> (r: Option<&DocumentSnapshot>)
        requires
            self.wf(),
        ensures
            match r {
                Some(s) => s.document_key@ == document_key@ && self.stored(s.snapshot_id.0) == Some(*s)
                    && forall|id: u64| #[trigger] self.stored(id) matches Some(t) && t.document_key@ == document_key@ ==> id <= s.snapshot_id.0,
                None => forall|id: u64| !(#[trigger] self.stored(id) matches Some(t) && t.document_key@ == document_key@),
            },
    {
        broadcast use vstd::std_specs::btree::group_btree_axioms;
        let mut best: Option<&DocumentSnapshot> = None;
        for kv in it: self.snapshots.iter()
            invariant
                self.wf(),
                it.seq() == vstd::std_specs::btree::spec_btree_map_iter(&self.snapshots).remaining(),
                best matches Some(b) ==> b.document_key@ == document_key@ && self.stored(b.snapshot_id.0) == Some(*b)
                    && forall|j: int| 0 <= j < it.index() && (*it.seq()[j].1).document_key@ == document_key@
                        ==> *it.seq()[j].0 <= b.snapshot_id.0,
                best is None ==> forall|j: int| 0 <= j < it.index() ==> (*it.seq()[j].1).document_key@ != document_key@,
        {
            let (id, snapshot) = kv;
            proof {
                assert(self.snapshots@.contains_key(*id) && self.snapshots@[*id] == *snapshot);
            }
            if str_eq(snapshot.document_key.as_str(), document_key) {
                match best {
                    Some(b) => {
                        if *id > b.snapshot_id.0 {
                            best = Some(snapshot);
                        }
                    },
                    None => {
                        best = Some(snapshot);
                    },
                }
            }
        }
        proof {
            let v = vstd::std_specs::btree::spec_btree_map_iter(&self.snapshots).remaining();
            assert forall|id: u64| #[trigger] self.stored(id) matches Some(t) && t.document_key@ == document_key@
                implies best matches Some(b) && id <= b.snapshot_id.0 by {
                assert(v.contains((&id, &self.snapshots@[id])));
                let j = choose|j: int| 0 <= j < v.len() && v[j] == (&id, &self.snapshots@[id]);
                assert(*v[j].0 == id);
            }
        }
        best
    }

    /// How a read of snapshot `snapshot_id` for the document is answered:
    /// never from another snapshot, never across documents, and only where
    /// the snapshot has a decoded document.
    pub fn resolve_snapshot_read(&self, document_key: Option<&str>, snapshot_id: SnapshotId) -> (r: SnapshotReadState<'_>)
        ensures
            read_state_matches(r, self.stored(snapshot_id.0), match document_key {
                Some(k) => Some(k@),
                None => None,
            }),
    {
        let snapshot = match self.snapshot(snapshot_id) {
            Some(s) => s,
            None => {
                return SnapshotReadState::Missing;
            },
        };
        if let Some(key) = document_key {
            if !str_eq(snapshot.document_key.as_str(), key) {
                return SnapshotReadState::DocumentIdentityMismatch;
            }
        }
        let has_document = match &snapshot.analysis {
            Some(analysis) => analysis.document.is_some(),
            None => false,
        };
        if !has_document {
            return SnapshotReadState::SemanticDataUnavailable;
        }
        SnapshotReadState::Ready(snapshot)
    }
}

impl DocumentRuntime {
    /// Every job of `new` is the job of `old` after a commit of snapshot
    /// `id` for document `key`.
    pub open spec fn jobs_stamped(old: &Self, new: &Self, key: Seq<char>, id: SnapshotId) -> bool {
        forall|h: u64| #[trigger] new.job_of(h) == (match old.job_of(h) {
            Some(e) => Some(stamp_job(e, key, id)),
            None => None,
        })
    }

    /// Records snapshot `id` on every active job of the document.
    fn stamp_active_jobs(&mut self, document_key: &str, id: SnapshotId)
        ensures
            Self::jobs_stamped(old(self), final(self), document_key@, id),
            final(self).snapshots == old(self).snapshots,
            final(self).latest_snapshot_by_document == old(self).latest_snapshot_by_document,
            final(self).request_seq_by_document == old(self).request_seq_by_document,
            final(self).next_job_handle == old(self).next_job_handle,
            final(self).next_snapshot_id == old(self).next_snapshot_id,
    {
        let ghost old_self = *self;
        let mut handles: Vec<u64> = Vec::new();
        for kv in it: self.jobs.iter()
            invariant
                it.seq() == vstd::std_specs::btree::spec_btree_map_iter(&self.jobs).remaining(),
                handles@.len() == it.index(),
                forall|j: int| 0 <= j < it.index() ==> handles@[j] == *it.seq()[j].0,
        {
            let (h, _) = kv;
            handles.push(*h);
        }
        proof {
            let v = vstd::std_specs::btree::spec_btree_map_iter(&old_self.jobs).remaining();
            assert forall|h: u64| old_self.jobs@.contains_key(h) implies handles@.contains(h) by {
                assert(v.contains((&h, &old_self.jobs@[h])));
                let j = choose|j: int| 0 <= j < v.len() && v[j] == (&h, &old_self.jobs@[h]);
                assert(handles@[j] == h);
            }
        }
        let mut i: usize = 0;
        while i < handles.len()
            invariant
                i <= handles@.len(),
                forall|h: u64| old_self.jobs@.contains_key(h) ==> handles@.contains(h),
                forall|h: u64| #[trigger] self.job_of(h) == (if handles@.take(i as int).contains(h) {
                    match old_self.job_of(h) {
                        Some(e) => Some(stamp_job(e, document_key@, id)),
                        None => None,
                    }
                } else {
                    old_self.job_of(h)
                }),
                self.snapshots == old_self.snapshots,
                self.latest_snapshot_by_document == old_self.latest_snapshot_by_document,
                self.request_seq_by_document == old_self.request_seq_by_document,
                self.next_job_handle == old_self.next_job_handle,
                self.next_snapshot_id == old_self.next_snapshot_id,
            decreases handles@.len() - i,
        {
            let h = handles[i];
            let ghost before = *self;
            match self.jobs.remove(&h) {
                Some(mut entry) => {
                    let ghost e0 = entry;
                    if entry.terminal.is_none() && str_eq(entry.spec.document_key.as_str(), document_key) {
                        entry.latest_snapshot_id = Some(id);
                    }
                    proof {
                        assert(before.jobs@.contains_key(h) && before.jobs@[h] == e0);
                        assert(entry == stamp_job(e0, document_key@, id));
                    }
                    let _ = self.jobs.insert(h, entry);
                    proof {
                        assert(self.jobs@ == before.jobs@.remove(h).insert(h, entry));
                        assert(self.job_of(h) == Some(stamp_job(e0, document_key@, id)));
                    }
                },
                None => {
                    proof {
                        assert(!before.jobs@.contains_key(h));
                        assert(self.jobs@ == before.jobs@.remove(h));
                        assert(self.jobs@ =~= before.jobs@);
                    }
                },
            }
            proof {
                assert(handles@.take(i + 1) =~= handles@.take(i as int).push(h));
                assert forall|q: u64| #[trigger] self.job_of(q) == (if handles@.take(i + 1).contains(q) {
                    match old_self.job_of(q) {
                        Some(e) => Some(stamp_job(e, document_key@, id)),
                        None => None,
                    }
                } else {
                    old_self.job_of(q)
                }) by {
                    assert(before.job_of(q) == (if handles@.take(i as int).contains(q) {
                        match old_self.job_of(q) {
                            Some(e) => Some(stamp_job(e, document_key@, id)),
                            None => None,
                        }
                    } else {
                        old_self.job_of(q)
                    }));
                    let t0 = handles@.take(i as int);
                    let t1 = handles@.take(i + 1);
                    if t0.contains(q) {
                        let j = choose|j: int| 0 <= j < t0.len() && t0[j] == q;
                        assert(t1[j] == q);
                    }
                    if t1.contains(q) && q != h {
                        let j = choose|j: int| 0 <= j < t1.len() && t1[j] == q;
                        assert(j < i);
                        assert(t0[j] == q);
                    }
                    assert(t1[i as int] == h);
                    if q != h {
                        assert(self.job_of(q) == before.job_of(q));
                    } else {
                        assert(self.job_of(h) == (match before.job_of(h) {
                            Some(e) => Some(stamp_job(e, document_key@, id)),
                            None => None,
                        }));
                        if let Some(e) = old_self.job_of(h) {
                            assert(stamp_job(stamp_job(e, document_key@, id), document_key@, id) == stamp_job(e, document_key@, id));
                        }
                    }
                }
            }
            i = i + 1;
        }
        proof {
            assert(handles@.take(handles@.len() as int) =~= handles@);
            assert forall|h: u64| #[trigger] self.job_of(h) == (match old_self.job_of(h) {
                Some(e) => Some(stamp_job(e, document_key@, id)),
                None => None,
            }) by {
                if old_self.job_of(h) is None {
                    assert(self.job_of(h) == old_self.job_of(h) || self.job_of(h) is None);
                }
            }
        }
    }

    /// Stores the snapshot for the document under its own id, or under a
    /// newly allocated one when it has none; an authoritative store makes it
    /// the document's latest, and every active job of the document records
    /// it.
    pub fn store_snapshot_for_document(&mut self, document_key: &str, snapshot: DocumentSnapshot, authoritative: bool) -> (r: SnapshotId)
        requires
            old(self).wf(),
        ensures
            final(self).wf(),
            r == assigned_id(old(self).last_snapshot_id(), snapshot),
            Self::snapshot_store_effect(old(self), final(self), document_key@, snapshot, authoritative),
            Self::jobs_stamped(old(self), final(self), document_key@, r),
    {
        broadcast use vstd::std_specs::btree::group_btree_axioms;
        let ghost old_self = *self;
        let ghost original = snapshot;
        let mut snapshot = snapshot;
        let snapshot_id = if snapshot.snapshot_id.0 == 0 {
            self.allocate_snapshot_id()
        } else {
            if self.next_snapshot_id < snapshot.snapshot_id.0 {
                self.next_snapshot_id = snapshot.snapshot_id.0;
            }
            snapshot.snapshot_id
        };
        snapshot.snapshot_id = snapshot_id;
        snapshot.document_key = document_key.to_owned();
        if authoritative {
            str_put(&mut self.latest_snapshot_by_document, document_key.to_owned(), snapshot_id);
        }
        let ghost stored_snapshot = snapshot;
        let _ = self.snapshots.insert(snapshot_id.0, snapshot);
        let ghost mid = *self;
        self.stamp_active_jobs(document_key, snapshot_id);
        proof {
            assert forall|id: u64| #[trigger] self.snapshots@.contains_key(id) implies self.snapshots@[id].snapshot_id.0 == id
                && id <= self.next_snapshot_id by {
                if id != snapshot_id.0 {
                    assert(old_self.snapshots@.contains_key(id));
                }
            }
            assert forall|k: Seq<char>| self.latest_of(k) == (if authoritative && k == document_key@ { Some(snapshot_id) } else { old_self.latest_of(k) }) by {}
            assert forall|k: Seq<char>| self.seq_of(k) == old_self.seq_of(k) by {}
            assert forall|other: u64| other != snapshot_id.0 implies self.stored(other) == old_self.stored(other) by {}
        }
        snapshot_id
    }
}

/// The events of first closing a job with `terminal` when it has recorded
/// the snapshot `latest`: a completed job announces its snapshot.
pub open spec fn close_events(terminal: JobTerminal, latest: Option<SnapshotId>) -> Seq<DocumentEvent> {
    if terminal is Completed && latest is Some {
        seq![DocumentEvent::SnapshotReady { snapshot_id: latest->Some_0, analysis: None, main_graph: None, source_text: None }]
    } else {
        Seq::empty()
    }
}

/// The snapshot as a commit in `mode` stores it: a diagnostics-only commit
/// drops the graph.
pub open spec fn committed_form(snapshot: DocumentSnapshot, mode: CommitMode) -> DocumentSnapshot {
    match mode {
        CommitMode::Authoritative => snapshot,
        CommitMode::DiagnosticsOnly => DocumentSnapshot { graph: None, ..snapshot },
    }
}

/// The terminal a commit in `mode` ends its job with.
pub open spec fn commit_outcome(mode: CommitMode) -> JobTerminal {
    match mode {
        CommitMode::Authoritative => JobTerminal::Completed,
        CommitMode::DiagnosticsOnly => JobTerminal::ParseFailed,
    }
}

impl DocumentRuntime {
    /// Closing job `h` with `terminal` took `old` to `new` and answered `r`:
    /// a job keeps the first terminal it was closed with, and only the
    /// close that sets it emits events.
    pub open spec fn close_post(old: &Self, new: &Self, h: u64, terminal: JobTerminal, r: EventBatch) -> bool {
        &&& (old.wf() ==> new.wf())
        &&& match old.job_of(h) {
            None => {
                &&& r.request_seq == 0
                &&& r.events@.len() == 0
                &&& (r.terminal matches Some(t) && is_missing_job_terminal(t, h))
                &&& new.same_as(old)
            },
            Some(e) => {
                let kept = match e.terminal {
                    Some(t) => t,
                    None => terminal,
                };
                &&& r.request_seq == e.request_seq
                &&& r.events@ == (if e.terminal is None {
                    close_events(terminal, e.latest_snapshot_id)
                } else {
                    Seq::empty()
                })
                &&& r.terminal == Some(kept)
                &&& new.job_of(h) == Some(JobEntry { terminal: Some(kept), ..e })
                &&& forall|h2: u64| h2 != h ==> new.job_of(h2) == old.job_of(h2)
                &&& new.same_but_jobs(old)
            },
        }
    }

    /// Committing `snapshot` in `mode` for job `h` took `old` to `new` and
    /// answered `r`.
    pub open spec fn commit_post(old: &Self, new: &Self, h: u64, snapshot: DocumentSnapshot, mode: CommitMode, r: JobTerminal) -> bool {
        match old.job_of(h) {
            None => is_missing_job_terminal(r, h) && new.same_as(old),
            Some(e) => if e.terminal is Some {
                r == e.terminal->Some_0 && new.same_as(old)
            } else {
                let key = e.spec.document_key@;
                let stored_snapshot = committed_form(snapshot, mode);
                let authoritative = mode is Authoritative && !(old.seq_of(key) > e.request_seq);
                let id = assigned_id(old.last_snapshot_id(), stored_snapshot);
                &&& r == commit_outcome(mode)
                &&& Self::snapshot_store_effect(old, new, key, stored_snapshot, authoritative)
                &&& new.job_of(h) == Some(JobEntry { latest_snapshot_id: Some(id), terminal: Some(commit_outcome(mode)), ..e })
                &&& forall|h2: u64| h2 != h ==> #[trigger] new.job_of(h2) == (match old.job_of(h2) {
                    Some(e2) => Some(stamp_job(e2, key, id)),
                    None => None,
                })
            },
        }
    }

    /// The terminal to record and the events to emit when a job is closed.
    fn terminal_with_latest_snapshot(entry: &JobEntry, terminal: JobTerminal) -> (r: (JobTerminal, Vec<DocumentEvent>))
        ensures
            r.0 == terminal,
            r.1@ == close_events(terminal, entry.latest_snapshot_id),
    {
        match (terminal, entry.latest_snapshot_id) {
            (JobTerminal::Completed, Some(snapshot_id)) => (
                JobTerminal::Completed,
                vec![DocumentEvent::SnapshotReady { snapshot_id, analysis: None, main_graph: None, source_text: None }],
            ),
            (terminal, _) => (terminal, Vec::new()),
        }
    }

    /// Closes the job with `terminal` unless it already has one, and
    /// answers with the terminal it keeps.
    pub fn close_job_terminal(&mut self, handle: DocumentJobHandle, terminal: JobTerminal) -> (r: EventBatch)
        ensures
            Self::close_post(old(self), final(self), handle.0, terminal, r),
    {
        match self.jobs.remove(&handle.0) {
            None => EventBatch { request_seq: 0, events: Vec::new(), terminal: Some(missing_job_terminal(handle)) },
            Some(mut entry) => {
                let request_seq = entry.request_seq;
                let (terminal, first_events) = Self::terminal_with_latest_snapshot(&entry, terminal);
                let kept = match &entry.terminal {
                    Some(t) => t.duplicate(),
                    None => terminal.duplicate(),
                };
                let events = if entry.terminal.is_none() {
                    entry.terminal = Some(terminal);
                    first_events
                } else {
                    Vec::new()
                };
                let _ = self.jobs.insert(handle.0, entry);
                EventBatch { request_seq, events, terminal: Some(kept) }
            },
        }
    }

    /// Records the committed snapshot and the terminal on job `handle`.
    fn finish_job(&mut self, handle: u64, id: SnapshotId, terminal: JobTerminal)
        requires
            old(self).job_of(handle) is Some,
        ensures
            final(self).job_of(handle) == Some(JobEntry { latest_snapshot_id: Some(id), terminal: Some(terminal), ..old(self).job_of(handle)->Some_0 }),
            forall|h2: u64| h2 != handle ==> final(self).job_of(h2) == old(self).job_of(h2),
            final(self).same_but_jobs(old(self)),
            old(self).wf() ==> final(self).wf(),
    {
        match self.jobs.remove(&handle) {
            Some(mut entry) => {
                entry.latest_snapshot_id = Some(id);
                entry.terminal = Some(terminal);
                let _ = self.jobs.insert(handle, entry);
            },
            None => {},
        }
    }

    /// Commits a snapshot for the job and ends it: an authoritative commit
    /// completes the job and becomes the document's latest unless a newer
    /// request for the document exists; a diagnostics-only commit stores
    /// the snapshot without its graph and fails the job's parse. A job that
    /// already has a terminal keeps it and nothing changes.
    pub fn commit_snapshot(&mut self, handle: DocumentJobHandle, snapshot: DocumentSnapshot, mode: CommitMode) -> (r: JobTerminal)
        requires
            old(self).wf(),
        ensures
            final(self).wf(),
            Self::commit_post(old(self), final(self), handle.0, snapshot, mode, r),
    {
        let ghost old_self = *self;
        let ghost original = snapshot;
        let entry = match self.job(handle) {
            Some(e) => e,
            None => {
                return missing_job_terminal(handle);
            },
        };
        if let Some(terminal) = &entry.terminal {
            return terminal.duplicate();
        }
        let document_key = copy_string(&entry.spec.document_key);
        let request_seq = entry.request_seq;
        match mode {
            CommitMode::Authoritative => {
                let stale = self.is_stale(document_key.as_str(), request_seq);
                let snapshot_id = self.store_snapshot_for_document(document_key.as_str(), snapshot, !stale);
                proof {
                    assert(self.job_of(handle.0) == Some(stamp_job(old_self.job_of(handle.0)->Some_0, document_key@, snapshot_id)));
                }
                self.finish_job(handle.0, snapshot_id, JobTerminal::Completed);
                JobTerminal::Completed
            },
            CommitMode::DiagnosticsOnly => {
                let mut diagnostics = snapshot;
                diagnostics.graph = None;
                proof {
                    assert(diagnostics == committed_form(original, mode));
                }
                let snapshot_id = self.store_snapshot_for_document(document_key.as_str(), diagnostics, false);
                proof {
                    assert(self.job_of(handle.0) == Some(stamp_job(old_self.job_of(handle.0)->Some_0, document_key@, snapshot_id)));
                }
                self.finish_job(handle.0, snapshot_id, JobTerminal::ParseFailed);
                JobTerminal::ParseFailed
            },
        }
    }
}

/// Closes the job with `terminal` unless it already has one.
pub fn close_job_terminal(runtime: &mut DocumentRuntime, handle: DocumentJobHandle, terminal: JobTerminal) -> (r: EventBatch)
    ensures
        DocumentRuntime::close_post(old(runtime), final(runtime), handle.0, terminal, r),
{
    runtime.close_job_terminal(handle, terminal)
}

/// Commits a snapshot for the job and ends it.
pub fn commit_snapshot(runtime: &mut DocumentRuntime, handle: DocumentJobHandle, snapshot: DocumentSnapshot, mode: CommitMode) -> (r: JobTerminal)
    requires
        old(runtime).wf(),
    ensures
        final(runtime).wf(),
        DocumentRuntime::commit_post(old(runtime), final(runtime), handle.0, snapshot, mode, r),
{
    runtime.commit_snapshot(handle, snapshot, mode)
}

impl DocumentRuntime {
    /// Takes the job registered under `handle` out of the runtime.
    pub fn take_job(&mut self, handle: DocumentJobHandle) -> (r: Option<JobEntry>)
        requires
            old(self).wf(),
        ensures
            final(self).wf(),
            r == old(self).job_of(handle.0),
            final(self).job_of(handle.0) is None,
            forall|h: u64| h != handle.0 ==> final(self).job_of(h) == old(self).job_of(h),
            final(self).same_but_jobs(old(self)),
    {
        self.jobs.remove(&handle.0)
    }

    /// Registers `entry` under `handle` again.
    pub fn restore_job(&mut self, handle: DocumentJobHandle, entry: JobEntry)
        ensures
            final(self).job_of(handle.0) == Some(entry),
            forall|h: u64| h != handle.0 ==> final(self).job_of(h) == old(self).job_of(h),
            final(self).same_but_jobs(old(self)),
            old(self).wf() ==> final(self).wf(),
    {
        let _ = self.jobs.insert(handle.0, entry);
    }
}

/// A job keeps the first terminal it was closed with: closing it again
/// reports that terminal and its request sequence number, emits no events
/// (a completed job announces its snapshot once), and changes nothing.
pub proof fn law_close_keeps_first_terminal(
    s0: DocumentRuntime,
    s1: DocumentRuntime,
    s2: DocumentRuntime,
    h: u64,
    t1: JobTerminal,
    t2: JobTerminal,
    r1: EventBatch,
    r2: EventBatch,
)
    requires
        s0.job_of(h) is Some,
        DocumentRuntime::close_post(&s0, &s1, h, t1, r1),
        DocumentRuntime::close_post(&s1, &s2, h, t2, r2),
    ensures
        r2.terminal == r1.terminal,
        r2.request_seq == r1.request_seq,
        r2.events@.len() == 0,
        s2.same_as(&s1),
{
}

/// A commit to a job that has ended reports the job's terminal and changes
/// nothing, so a close followed by a commit leaves the closed terminal.
pub proof fn law_commit_after_close_changes_nothing(
    s0: DocumentRuntime,
    s1: DocumentRuntime,
    s2: DocumentRuntime,
    h: u64,
    t: JobTerminal,
    r1: EventBatch,
    snapshot: DocumentSnapshot,
    mode: CommitMode,
    r2: JobTerminal,
)
    requires
        s0.job_of(h) is Some,
        DocumentRuntime::close_post(&s0, &s1, h, t, r1),
        DocumentRuntime::commit_post(&s1, &s2, h, snapshot, mode, r2),
    ensures
        r1.terminal == Some(r2),
        s2.same_as(&s1),
{
}

/// An authoritative commit of a job whose document has seen a newer
/// request completes the job but does not replace the document's latest
/// snapshot; a snapshot that gets a fresh id is stored under an id that no
/// document's latest snapshot has.
pub proof fn law_stale_commit_keeps_latest(
    s0: DocumentRuntime,
    s1: DocumentRuntime,
    h: u64,
    snapshot: DocumentSnapshot,
    r: JobTerminal,
)
    requires
        s0.job_of(h) matches Some(e) && e.terminal is None && s0.seq_of(e.spec.document_key@) > e.request_seq,
        DocumentRuntime::commit_post(&s0, &s1, h, snapshot, CommitMode::Authoritative, r),
    ensures
        r == JobTerminal::Completed,
        forall|k: Seq<char>| s1.latest_of(k) == s0.latest_of(k),
        s1.job_of(h) matches Some(e) && e.terminal == Some(JobTerminal::Completed)
            && e.latest_snapshot_id == Some(assigned_id(s0.last_snapshot_id(), snapshot)),
        (s0.wf() && snapshot.snapshot_id.0 == 0 && s0.last_snapshot_id() < u64::MAX) ==> forall|k: Seq<char>|
            s1.latest_of(k) != Some(assigned_id(s0.last_snapshot_id(), snapshot)),
{
    if s0.wf() && snapshot.snapshot_id.0 == 0 && s0.last_snapshot_id() < u64::MAX {
        assert forall|k: Seq<char>| s1.latest_of(k) != Some(assigned_id(s0.last_snapshot_id(), snapshot)) by {
            assert(s1.latest_of(k) == s0.latest_of(k));
            if let Some(i) = str_lookup(s0.latest_snapshot_by_document@, k) {
                assert(i.0 <= s0.next_snapshot_id);
            }
        }
    }
}

/// An authoritative commit of a job that is the newest request of its
/// document makes the committed snapshot the document's latest.
pub proof fn law_fresh_commit_becomes_latest(
    s0: DocumentRuntime,
    s1: DocumentRuntime,
    h: u64,
    snapshot: DocumentSnapshot,
    r: JobTerminal,
)
    requires
        s0.job_of(h) matches Some(e) && e.terminal is None && s0.seq_of(e.spec.document_key@) <= e.request_seq,
        DocumentRuntime::commit_post(&s0, &s1, h, snapshot, CommitMode::Authoritative, r),
    ensures
        r == JobTerminal::Completed,
        s1.latest_of(s0.job_of(h)->Some_0.spec.document_key@) == Some(assigned_id(s0.last_snapshot_id(), snapshot)),
        s1.stored(assigned_id(s0.last_snapshot_id(), snapshot).0) matches Some(stored)
            && stored.analysis == snapshot.analysis && stored.graph == snapshot.graph,
{
}

/// A diagnostics-only commit stores the snapshot without its graph, leaves
/// every document's latest snapshot alone and ends the job with a failed
/// parse that records the stored snapshot.
pub proof fn law_diagnostics_commit_is_not_authoritative(
    s0: DocumentRuntime,
    s1: DocumentRuntime,
    h: u64,
    snapshot: DocumentSnapshot,
    r: JobTerminal,
)
    requires
        s0.job_of(h) matches Some(e) && e.terminal is None,
        DocumentRuntime::commit_post(&s0, &s1, h, snapshot, CommitMode::DiagnosticsOnly, r),
    ensures
        r == JobTerminal::ParseFailed,
        forall|k: Seq<char>| s1.latest_of(k) == s0.latest_of(k),
        s1.stored(assigned_id(s0.last_snapshot_id(), snapshot).0) matches Some(stored) && stored.graph is None,
        s1.job_of(h) matches Some(e) && e.terminal == Some(JobTerminal::ParseFailed)
            && e.latest_snapshot_id == Some(assigned_id(s0.last_snapshot_id(), snapshot)),
{
}

/// A read names its snapshot: a read of an id that is not stored finds
/// nothing whatever else the document has, and a read for another document
/// is refused.
pub proof fn law_reads_never_fall_back(r: SnapshotReadState, stored: Option<DocumentSnapshot>, key: Option<Seq<char>>)
    requires
        read_state_matches(r, stored, key),
    ensures
        stored is None ==> r is Missing,
        (stored matches Some(s) && key matches Some(k) && s.document_key@ != k) ==> r is DocumentIdentityMismatch,
        r matches SnapshotReadState::Ready(x) ==> stored == Some(*x),
{
}

impl Default for DocumentRuntime {
    fn default() -> (r: Self)
        ensures
            r.wf(),
            forall|h: u64| r.job_of(h) is None,
            forall|id: u64| r.stored(id) is None,
            forall|k: Seq<char>| r.latest_of(k) is None,
            forall|k: Seq<char>| r.seq_of(k) == 0,
            r.last_handle() == 0,
            r.last_snapshot_id() == 0,
    {
        DocumentRuntime::new()
    }
}

/// `r` answers a read whose state was `state`: the reader's answer when the
/// snapshot is ready, and "not ready" otherwise.
pub open spec fn read_answer<T, R: FnOnce(&DocumentSnapshot) -> T>(
    r: SnapshotReadResult<T>,
    stored: Option<DocumentSnapshot>,
    key: Option<Seq<char>>,
    read: R,
) -> bool {
    match stored {
        Some(s) if (key matches Some(k) ==> s.document_key@ == k) && (s.analysis matches Some(a) && a.document is Some) =>
            r matches SnapshotReadResult::Ready { data } && call_ensures(read, (&s,), data),
        _ => r is SnapshotNotReady,
    }
}

impl DocumentRuntime {
    /// Starts a job and counts it.
    pub fn start_job_with_identity(&mut self, metrics: &mut DocumentEngineMetrics, spec: DocumentJobSpec) -> (r: StartedDocumentJob)
        ensures
            r.handle.0 == saturating_inc(old(self).last_handle()),
            r.request_seq == saturating_inc(old(self).seq_of(spec.document_key@)),
            final(self).last_handle() == r.handle.0,
            forall|k: Seq<char>| final(self).seq_of(k) == (if k == spec.document_key@ { r.request_seq } else { old(self).seq_of(k) }),
            forall|h: u64| h != r.handle.0 ==> final(self).job_of(h) == old(self).job_of(h),
            final(self).job_of(r.handle.0) matches Some(e) && e.spec == spec && e.request_seq == r.request_seq
                && e.latest_snapshot_id is None && e.terminal is None && e.source_buffer is None
                && e.source_bytes is None && e.line_count == 0,
            forall|id: u64| final(self).stored(id) == old(self).stored(id),
            forall|k: Seq<char>| final(self).latest_of(k) == old(self).latest_of(k),
            final(self).last_snapshot_id() == old(self).last_snapshot_id(),
            old(self).wf() ==> final(self).wf(),
            *final(metrics) == (DocumentEngineMetrics { jobs_started: saturating_inc(old(metrics).jobs_started), ..*old(metrics) }),
    {
        let started = self.insert_job(spec);
        metrics.record_job_started();
        started
    }

    /// Answers a query on the snapshot it names, for the document it names;
    /// `read` answers it on a readable snapshot.
    pub fn query_snapshot<R: FnOnce(&DocumentSnapshot) -> QueryResult>(
        &self,
        document_key: &str,
        query: &SnapshotQuery,
        read: R,
    ) -> (r: SnapshotReadResult<QueryResult>)
        requires
            forall|s: &DocumentSnapshot| call_requires(read, (s,)),
        ensures
            read_answer(r, self.stored(query.snapshot_id.0), Some(document_key@), read),
    {
        match self.resolve_snapshot_read(Some(document_key), query.snapshot_id) {
            SnapshotReadState::Ready(snapshot) => SnapshotReadResult::Ready { data: read(snapshot) },
            _ => SnapshotReadResult::SnapshotNotReady,
        }
    }

    /// Builds the hover projection on the snapshot the request names;
    /// `project` builds it on a readable snapshot, and may fail. A snapshot
    /// that is not stored, or is stored without an analysis and its decoded
    /// document, is not ready: the read goes through `resolve_snapshot_read`.
    pub fn build_hover_subgraph_projection<P: FnOnce(&DocumentSnapshot) -> Result<ProjectionDelta, &'static str>>(
        &self,
        request: &ProjectionRequest,
        project: P,
    ) -> (r: Result<SnapshotReadResult<ProjectionDelta>, &'static str>)
        requires
            forall|s: &DocumentSnapshot| call_requires(project, (s,)),
        ensures
            match self.stored(request.snapshot_id.0) {
                Some(s) if s.analysis matches Some(a) && a.document is Some => exists|out: Result<ProjectionDelta, &'static str>|
                    call_ensures(project, (&s,), out) && match out {
                        Ok(data) => r == Ok::<SnapshotReadResult<ProjectionDelta>, &'static str>(SnapshotReadResult::Ready { data }),
                        Err(e) => r == Err::<SnapshotReadResult<ProjectionDelta>, &'static str>(e),
                    },
                _ => r == Ok::<SnapshotReadResult<ProjectionDelta>, &'static str>(SnapshotReadResult::SnapshotNotReady),
            },
    {
        match self.resolve_snapshot_read(None, request.snapshot_id) {
            SnapshotReadState::Ready(snapshot) => {
                let out = project(snapshot);
                match out {
                    Ok(data) => Ok(SnapshotReadResult::Ready { data }),
                    Err(e) => Err(e),
                }
            },
            _ => Ok(SnapshotReadResult::SnapshotNotReady),
        }
    }
}

/// Starts a job on the engine's runtime and counts it.
pub fn start_global_job(runtime: &mut DocumentRuntime, metrics: &mut DocumentEngineMetrics, spec: DocumentJobSpec) -> (r: StartedDocumentJob)
    ensures
        r.handle.0 == saturating_inc(old(runtime).last_handle()),
        r.request_seq == saturating_inc(old(runtime).seq_of(spec.document_key@)),
        final(runtime).last_handle() == r.handle.0,
        forall|k: Seq<char>| final(runtime).seq_of(k) == (if k == spec.document_key@ { r.request_seq } else { old(runtime).seq_of(k) }),
        forall|h: u64| h != r.handle.0 ==> final(runtime).job_of(h) == old(runtime).job_of(h),
        final(runtime).job_of(r.handle.0) matches Some(e) && e.spec == spec && e.request_seq == r.request_seq
            && e.latest_snapshot_id is None && e.terminal is None && e.source_buffer is None
            && e.source_bytes is None && e.line_count == 0,
        forall|id: u64| final(runtime).stored(id) == old(runtime).stored(id),
        forall|k: Seq<char>| final(runtime).latest_of(k) == old(runtime).latest_of(k),
        final(runtime).last_snapshot_id() == old(runtime).last_snapshot_id(),
        old(runtime).wf() ==> final(runtime).wf(),
        *final(metrics) == (DocumentEngineMetrics { jobs_started: saturating_inc(old(metrics).jobs_started), ..*old(metrics) }),
{
    runtime.start_job_with_identity(metrics, spec)
}

/// Advances a job on the engine's runtime.
pub fn advance_global_job<F: FnOnce(super::materialization::MaterializeRequest, Option<&DocumentSnapshot>) -> super::materialization::MaterializeResult>(
    runtime: &mut DocumentRuntime,
    metrics: &mut DocumentEngineMetrics,
    handle: DocumentJobHandle,
    input: super::protocol::AdvanceInput,
    materialize: F,
) -> (r: EventBatch)
    requires
        old(runtime).wf(),
        forall|req: super::materialization::MaterializeRequest, base: Option<&DocumentSnapshot>| call_requires(materialize, (req, base)),
    ensures
        final(runtime).wf(),
        super::engine::advance_post(*old(runtime), *final(runtime), handle.0, input, materialize, r),
        *final(metrics) == (DocumentEngineMetrics {
            jobs_advanced: saturating_inc(old(metrics).jobs_advanced),
            terminal_batches: old(metrics).terminal_count_after(&r),
            ..*old(metrics)
        }),
{
    super::engine::advance_job(runtime, metrics, handle, input, materialize)
}

/// Cancels a job on the engine's runtime.
pub fn cancel_global_job(runtime: &mut DocumentRuntime, metrics: &mut DocumentEngineMetrics, handle: DocumentJobHandle) -> (r: EventBatch)
    ensures
        DocumentRuntime::close_post(old(runtime), final(runtime), handle.0, JobTerminal::Cancelled, r),
        match old(runtime).job_of(handle.0) {
            Some(e) if e.terminal is Some => *final(metrics) == (DocumentEngineMetrics {
                terminal_batches: old(metrics).terminal_count_after(&r),
                ..*old(metrics)
            }),
            _ => *final(metrics) == (DocumentEngineMetrics {
                jobs_cancelled: saturating_inc(old(metrics).jobs_cancelled),
                terminal_batches: old(metrics).terminal_count_after(&r),
                ..*old(metrics)
            }),
        },
{
    super::engine::cancel_job(runtime, metrics, handle)
}

/// Closes a job on the engine's runtime.
pub fn close_global_job(
    runtime: &mut DocumentRuntime,
    metrics: &mut DocumentEngineMetrics,
    handle: DocumentJobHandle,
    terminal: JobTerminal,
) -> (r: EventBatch)
    ensures
        DocumentRuntime::close_post(old(runtime), final(runtime), handle.0, terminal, r),
        *final(metrics) == (DocumentEngineMetrics { terminal_batches: old(metrics).terminal_count_after(&r), ..*old(metrics) }),
{
    super::engine::close_job(runtime, metrics, handle, terminal)
}

/// Answers a query on the engine's runtime.
pub fn query_global_snapshot<R: FnOnce(&DocumentSnapshot) -> QueryResult>(
    runtime: &DocumentRuntime,
    document_key: &str,
    query: &SnapshotQuery,
    read: R,
) -> (r: SnapshotReadResult<QueryResult>)
    requires
        forall|s: &DocumentSnapshot| call_requires(read, (s,)),
    ensures
        read_answer(r, runtime.stored(query.snapshot_id.0), Some(document_key@), read),
{
    runtime.query_snapshot(document_key, query, read)
}

/// Builds a hover projection on the engine's runtime.
pub fn build_global_hover_subgraph_projection<P: FnOnce(&DocumentSnapshot) -> Result<ProjectionDelta, &'static str>>(
    runtime: &DocumentRuntime,
    request: &ProjectionRequest,
    project: P,
) -> (r: Result<SnapshotReadResult<ProjectionDelta>, &'static str>)
    requires
        forall|s: &DocumentSnapshot| call_requires(project, (s,)),
    ensures
        match runtime.stored(request.snapshot_id.0) {
            Some(s) if s.analysis matches Some(a) && a.document is Some => exists|out: Result<ProjectionDelta, &'static str>|
                call_ensures(project, (&s,), out) && match out {
                    Ok(data) => r == Ok::<SnapshotReadResult<ProjectionDelta>, &'static str>(SnapshotReadResult::Ready { data }),
                    Err(e) => r == Err::<SnapshotReadResult<ProjectionDelta>, &'static str>(e),
                },
            _ => r == Ok::<SnapshotReadResult<ProjectionDelta>, &'static str>(SnapshotReadResult::SnapshotNotReady),
        },
{
    runtime.build_hover_subgraph_projection(request, project)
}

/// Empties the runtime.
pub fn reset_runtime_for_tests(runtime: &mut DocumentRuntime)
    ensures
        final(runtime).wf(),
        forall|h: u64| final(runtime).job_of(h) is None,
        forall|id: u64| final(runtime).stored(id) is None,
        forall|k: Seq<char>| final(runtime).latest_of(k) is None,
        forall|k: Seq<char>| final(runtime).seq_of(k) == 0,
        final(runtime).last_handle() == 0,
        final(runtime).last_snapshot_id() == 0,
{
    *runtime = DocumentRuntime::new();
}

/// The number of jobs of the runtime without a terminal.
pub fn document_runtime_job_count_for_tests(runtime: &DocumentRuntime) -> (r: usize)
    requires
        runtime.wf(),
    ensures
        r == runtime.active_handles().len(),
{
    runtime.active_job_count()
}

/// Whether a job of the document has no terminal yet.
pub fn document_runtime_contains_document_for_tests(runtime: &DocumentRuntime, document_key: &str) -> (r: bool)
    requires
        runtime.wf(),
    ensures
        r == exists|h: u64| #[trigger] runtime.job_of(h) matches Some(e) && e.terminal is None && e.spec.document_key@ == document_key@,
{
    runtime.contains_active_document(document_key)
}

/// The terminal of the document's newest job.
pub fn document_runtime_terminal_for_document_for_tests(runtime: &DocumentRuntime, document_key: &str) -> (r: Option<JobTerminal>)
    requires
        runtime.wf(),
    ensures
        forall|h: u64| runtime.is_latest_job(h, document_key@) ==> r == runtime.job_of(h)->Some_0.terminal,
        !runtime.has_job_for(document_key@) ==> r is None,
{
    runtime.latest_terminal_for_document(document_key)
}

/// The specification of the document's newest job.
pub fn document_runtime_latest_job_spec_for_document_for_tests(runtime: &DocumentRuntime, document_key: &str) -> (r: Option<DocumentJobSpec>)
    requires
        runtime.wf(),
    ensures
        forall|h: u64| runtime.is_latest_job(h, document_key@) ==> (r matches Some(spec) && spec.same_as(&runtime.job_of(h)->Some_0.spec)),
        !runtime.has_job_for(document_key@) ==> r is None,
{
    runtime.latest_job_spec_for_document(document_key)
}

} // verus!