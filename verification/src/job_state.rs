//! Typed job lifecycle states.
//!
//! One type per non-terminal state, each exposing only the transitions legal
//! from that state; consuming a value yields the next-state value together
//! with the `(id, new status)` pair that must be persisted before any
//! further action. Terminal states expose only the underlying record. A type
//! invariant ties each wrapper to its status, so completing a job that is
//! not processing, or resuming one that is not waiting, does not compile
//! into anything: the values cannot exist.

use vstd::prelude::*;

use crate::types::{legal_transition, JobStatus, ScheduleJob};

verus! {

/// A job known to be in `Pending` status.
pub struct PendingJob {
    inner: ScheduleJob,
}

/// A job known to be in `Processing` status.
pub struct ProcessingJob {
    inner: ScheduleJob,
}

/// Terminal state: job completed successfully.
pub struct CompletedJob {
    inner: ScheduleJob,
}

/// Terminal state: job failed.
pub struct FailedJob {
    inner: ScheduleJob,
}

/// A job waiting for the data service to recover before retrying.
pub struct WaitingForRetryJob {
    inner: ScheduleJob,
}

impl PendingJob {
    #[verifier::type_invariant]
    pub closed spec fn wf(self) -> bool {
        self.inner.status == JobStatus::Pending
    }

    /// The wrapped record, as the contracts see it.
    pub closed spec fn job(&self) -> ScheduleJob {
        self.inner
    }

    /// Wraps a raw record, refusing any whose stored status is not
    /// `Pending`. This is the one runtime check of the state machine; it
    /// guards the recovery paths.
    pub fn from_schedule_job(job: ScheduleJob) -> (r: Option<Self>)
        ensures
            match r {
                Some(p) => job.status == JobStatus::Pending && p.job() == job,
                None => job.status != JobStatus::Pending,
            },
    {
        if job.status == JobStatus::Pending {
            Some(PendingJob { inner: job })
        } else {
            None
        }
    }

    pub fn id(&self) -> (r: u64)
        ensures
            r == self.job().id,
    {
        self.inner.id
    }

    pub fn inner(&self) -> (r: &ScheduleJob)
        ensures
            *r == self.job(),
            r.status == JobStatus::Pending,
    {
        proof {
            use_type_invariant(&*self);
        }
        &self.inner
    }

    /// Consumes the pending job, yielding the processing state and the
    /// status change to persist. The transition taken is legal.
    pub fn start_processing(self) -> (r: (ProcessingJob, u64, JobStatus))
        ensures
            r.0.job() == (ScheduleJob { status: JobStatus::Processing, ..self.job() }),
            r.1 == self.job().id,
            r.2 == JobStatus::Processing,
            legal_transition(self.job().status, r.2),
    {
        proof {
            use_type_invariant(&self);
        }
        let mut inner = self.inner;
        let id = inner.id;
        inner.status = JobStatus::Processing;
        (ProcessingJob { inner }, id, JobStatus::Processing)
    }
}

impl ProcessingJob {
    #[verifier::type_invariant]
    pub closed spec fn wf(self) -> bool {
        self.inner.status == JobStatus::Processing
    }

    /// The wrapped record, as the contracts see it.
    pub closed spec fn job(&self) -> ScheduleJob {
        self.inner
    }

    pub fn id(&self) -> (r: u64)
        ensures
            r == self.job().id,
    {
        self.inner.id
    }

    pub fn staff_group_id(&self) -> (r: u128)
        ensures
            r == self.job().staff_group_id,
    {
        self.inner.staff_group_id
    }

    pub fn period_begin_date(&self) -> (r: i32)
        ensures
            r == self.job().period_begin_date,
    {
        self.inner.period_begin_date
    }

    /// Consumes the processing job as successfully completed. The
    /// transition taken is legal.
    pub fn complete(self) -> (r: (CompletedJob, u64, JobStatus))
        ensures
            r.0.job() == (ScheduleJob { status: JobStatus::Completed, ..self.job() }),
            r.1 == self.job().id,
            r.2 == JobStatus::Completed,
            legal_transition(self.job().status, r.2),
    {
        proof {
            use_type_invariant(&self);
        }
        let mut inner = self.inner;
        let id = inner.id;
        inner.status = JobStatus::Completed;
        (CompletedJob { inner }, id, JobStatus::Completed)
    }

    /// Consumes the processing job as terminally failed. The transition
    /// taken is legal.
    pub fn fail(self) -> (r: (FailedJob, u64, JobStatus))
        ensures
            r.0.job() == (ScheduleJob { status: JobStatus::Failed, ..self.job() }),
            r.1 == self.job().id,
            r.2 == JobStatus::Failed,
            legal_transition(self.job().status, r.2),
    {
        proof {
            use_type_invariant(&self);
        }
        let mut inner = self.inner;
        let id = inner.id;
        inner.status = JobStatus::Failed;
        (FailedJob { inner }, id, JobStatus::Failed)
    }

    /// Consumes the processing job as waiting for the data service to
    /// recover. The transition taken is legal.
    pub fn wait_for_retry(self) -> (r: (WaitingForRetryJob, u64, JobStatus))
        ensures
            r.0.job() == (ScheduleJob { status: JobStatus::WaitingForRetry, ..self.job() }),
            r.1 == self.job().id,
            r.2 == JobStatus::WaitingForRetry,
            legal_transition(self.job().status, r.2),
    {
        proof {
            use_type_invariant(&self);
        }
        let mut inner = self.inner;
        let id = inner.id;
        inner.status = JobStatus::WaitingForRetry;
        (WaitingForRetryJob { inner }, id, JobStatus::WaitingForRetry)
    }
}

impl CompletedJob {
    #[verifier::type_invariant]
    pub closed spec fn wf(self) -> bool {
        self.inner.status == JobStatus::Completed
    }

    /// The wrapped record, as the contracts see it.
    pub closed spec fn job(&self) -> ScheduleJob {
        self.inner
    }

    pub fn into_inner(self) -> (r: ScheduleJob)
        ensures
            r == self.job(),
            r.status == JobStatus::Completed,
    {
        proof {
            use_type_invariant(&self);
        }
        self.inner
    }
}

impl FailedJob {
    #[verifier::type_invariant]
    pub closed spec fn wf(self) -> bool {
        self.inner.status == JobStatus::Failed
    }

    /// The wrapped record, as the contracts see it.
    pub closed spec fn job(&self) -> ScheduleJob {
        self.inner
    }

    pub fn into_inner(self) -> (r: ScheduleJob)
        ensures
            r == self.job(),
            r.status == JobStatus::Failed,
    {
        proof {
            use_type_invariant(&self);
        }
        self.inner
    }
}

impl WaitingForRetryJob {
    #[verifier::type_invariant]
    pub closed spec fn wf(self) -> bool {
        self.inner.status == JobStatus::WaitingForRetry
    }

    /// The wrapped record, as the contracts see it.
    pub closed spec fn job(&self) -> ScheduleJob {
        self.inner
    }

    pub fn id(&self) -> (r: u64)
        ensures
            r == self.job().id,
    {
        self.inner.id
    }

    /// Consumes the waiting job back into the pending state for a retry.
    /// The transition taken is legal.
    pub fn into_pending(self) -> (r: (PendingJob, u64, JobStatus))
        ensures
            r.0.job() == (ScheduleJob { status: JobStatus::Pending, ..self.job() }),
            r.1 == self.job().id,
            r.2 == JobStatus::Pending,
            legal_transition(self.job().status, r.2),
    {
        proof {
            use_type_invariant(&self);
        }
        let mut inner = self.inner;
        let id = inner.id;
        inner.status = JobStatus::Pending;
        (PendingJob { inner }, id, JobStatus::Pending)
    }

    pub fn into_inner(self) -> (r: ScheduleJob)
        ensures
            r == self.job(),
            r.status == JobStatus::WaitingForRetry,
    {
        proof {
            use_type_invariant(&self);
        }
        self.inner
    }
}

/// Law: in any run of statuses whose consecutive pairs are legal
/// transitions, a terminal status — `Completed` or `Failed` — can only be
/// the last: a terminal state cannot be un-transitioned.
pub proof fn lemma_terminal_states_are_final(s: Seq<JobStatus>, t: int)
    requires
        forall|u: int| 0 <= u < s.len() - 1 ==> legal_transition(#[trigger] s[u], s[u + 1]),
        0 <= t < s.len(),
        s[t] == JobStatus::Completed || s[t] == JobStatus::Failed,
    ensures
        t == s.len() - 1,
{
    if t < s.len() - 1 {
        assert(legal_transition(s[t], s[t + 1]));
    }
}

/// Law: the lifecycle admits exactly the five transitions of the job state
/// machine — pending to processing, processing to one of the three
/// outcomes, and waiting back to pending — and no others.
pub proof fn lemma_legal_transitions_characterized(from: JobStatus, to: JobStatus)
    ensures
        legal_transition(from, to) <==> ((from == JobStatus::Pending && to == JobStatus::Processing)
            || (from == JobStatus::Processing && to == JobStatus::Completed) || (from
            == JobStatus::Processing && to == JobStatus::Failed) || (from == JobStatus::Processing
            && to == JobStatus::WaitingForRetry) || (from == JobStatus::WaitingForRetry && to
            == JobStatus::Pending)),
{
}

} // verus!
