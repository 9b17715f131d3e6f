//! Counters that the document engine keeps about job activity.
use vstd::prelude::*;
use super::protocol::EventBatch;

verus! {

/// `x + 1`, held at `u64::MAX`.
pub open spec fn saturating_inc(x: u64) -> u64 {
    if x == u64::MAX {
        x
    } else {
        (x + 1) as u64
    }
}

#[derive(Debug, Clone, Copy, PartialEq, Eq, Default)]
pub struct DocumentEngineMetrics {
    pub jobs_started: u64,
    pub jobs_advanced: u64,
    pub jobs_cancelled: u64,
    pub terminal_batches: u64,
    pub commit_incremental_fallback_full_parses: u64,
}

impl DocumentEngineMetrics {
    /// All counters at zero.
    pub open spec fn is_zero(&self) -> bool {
        &&& self.jobs_started == 0
        &&& self.jobs_advanced == 0
        &&& self.jobs_cancelled == 0
        &&& self.terminal_batches == 0
        &&& self.commit_incremental_fallback_full_parses == 0
    }

    /// The counters after one more terminal batch when `batch` carries a terminal.
    pub open spec fn terminal_count_after(&self, batch: &EventBatch) -> u64 {
        if batch.terminal is Some {
            saturating_inc(self.terminal_batches)
        } else {
            self.terminal_batches
        }
    }

    pub fn record_job_started(&mut self)
        ensures
            *final(self) == (DocumentEngineMetrics {
                jobs_started: saturating_inc(old(self).jobs_started),
                ..*old(self)
            }),
    {
        self.jobs_started = self.jobs_started.saturating_add(1);
    }

    pub fn record_job_advanced(&mut self, batch: &EventBatch)
        ensures
            *final(self) == (DocumentEngineMetrics {
                jobs_advanced: saturating_inc(old(self).jobs_advanced),
                terminal_batches: old(self).terminal_count_after(batch),
                ..*old(self)
            }),
    {
        self.jobs_advanced = self.jobs_advanced.saturating_add(1);
        if batch.terminal.is_some() {
            self.terminal_batches = self.terminal_batches.saturating_add(1);
        }
    }

    pub fn record_job_cancelled(&mut self, batch: &EventBatch)
        ensures
            *final(self) == (DocumentEngineMetrics {
                jobs_cancelled: saturating_inc(old(self).jobs_cancelled),
                terminal_batches: old(self).terminal_count_after(batch),
                ..*old(self)
            }),
    {
        self.jobs_cancelled = self.jobs_cancelled.saturating_add(1);
        if batch.terminal.is_some() {
            self.terminal_batches = self.terminal_batches.saturating_add(1);
        }
    }

    pub fn record_job_closed(&mut self, batch: &EventBatch)
        ensures
            *final(self) == (DocumentEngineMetrics {
                terminal_batches: old(self).terminal_count_after(batch),
                ..*old(self)
            }),
    {
        if batch.terminal.is_some() {
            self.terminal_batches = self.terminal_batches.saturating_add(1);
        }
    }

    pub fn record_commit_incremental_fallback_full_parse(&mut self)
        ensures
            *final(self) == (DocumentEngineMetrics {
                commit_incremental_fallback_full_parses: saturating_inc(
                    old(self).commit_incremental_fallback_full_parses,
                ),
                ..*old(self)
            }),
    {
        self.commit_incremental_fallback_full_parses =
            self.commit_incremental_fallback_full_parses.saturating_add(1);
    }

    /// Metrics with every counter at zero.
    pub fn zeroed() -> (r: Self)
        ensures
            r.is_zero(),
    {
        DocumentEngineMetrics {
            jobs_started: 0,
            jobs_advanced: 0,
            jobs_cancelled: 0,
            terminal_batches: 0,
            commit_incremental_fallback_full_parses: 0,
        }
    }
}

/// Every counter only grows: no record call lowers any count.
pub open spec fn counters_never_decrease(a: DocumentEngineMetrics, b: DocumentEngineMetrics) -> bool {
    &&& a.jobs_started <= b.jobs_started
    &&& a.jobs_advanced <= b.jobs_advanced
    &&& a.jobs_cancelled <= b.jobs_cancelled
    &&& a.terminal_batches <= b.terminal_batches
    &&& a.commit_incremental_fallback_full_parses <= b.commit_incremental_fallback_full_parses
}

/// Recording any job activity never lowers a counter, and a batch that
/// carries a terminal raises the terminal count unless it is saturated.
pub proof fn lemma_recording_is_monotone(m: DocumentEngineMetrics, batch: EventBatch)
    ensures
        counters_never_decrease(
            m,
            DocumentEngineMetrics { jobs_advanced: saturating_inc(m.jobs_advanced), terminal_batches: m.terminal_count_after(&batch), ..m },
        ),
        counters_never_decrease(
            m,
            DocumentEngineMetrics { jobs_cancelled: saturating_inc(m.jobs_cancelled), terminal_batches: m.terminal_count_after(&batch), ..m },
        ),
        batch.terminal is Some && m.terminal_batches < u64::MAX ==> m.terminal_count_after(&batch) == m.terminal_batches + 1,
{
}

/// A copy of the counters.
pub fn global_document_engine_metrics_snapshot_for_tests(metrics: &DocumentEngineMetrics) -> (r: DocumentEngineMetrics)
    ensures
        r == *metrics,
{
    *metrics
}

/// Sets every counter to zero.
pub fn reset_global_document_engine_metrics_for_tests(metrics: &mut DocumentEngineMetrics)
    ensures
        final(metrics).is_zero(),
{
    *metrics = DocumentEngineMetrics::zeroed();
}

} // verus!