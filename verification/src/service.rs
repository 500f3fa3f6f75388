//! The scheduling service: orchestrates the job lifecycle over the store.
//!
//! The service is a state machine driven from outside: submission validates
//! and records a pending job; processing is split at the point where the
//! roster crosses the network, so the driver persists `Processing`, fetches,
//! and hands the outcome back; recovery re-queues stale and waiting jobs.
//! Every outcome a method can take is written in its contract, so the laws
//! of the lifecycle (distinct ids, idempotent results, recovery leaving no
//! job in flight) are theorems of the contracts.

use vstd::prelude::*;

use crate::config::SchedulingConfig;
use crate::error::SchedulingServiceError;
use crate::job_state::{PendingJob, ProcessingJob};
use crate::rules::Rule;
use crate::scheduler::{gen_schedule, schedulable, valid_schedule};
use crate::store::{
    assignments_of, attach_ids, find_job, has_job, job_index, jobs_with_status, sort_assignments,
    JobStore,
};
use crate::types::{
    spec_is_monday, JobStatus, NewShiftAssignment, ScheduleJob, ScheduleResult, Staff, StaffStatus,
    PERIOD_DAYS,
};

verus! {

/// The ids of the given jobs, in order.
pub open spec fn job_ids(jobs: Seq<ScheduleJob>) -> Seq<u64> {
    jobs.map_values(|j: ScheduleJob| j.id)
}

/// The ids of the active staff among `members`, in delivered order.
pub open spec fn active_staff_ids(members: Seq<Staff>) -> Seq<u128>
    decreases members.len(),
{
    if members.len() == 0 {
        Seq::empty()
    } else {
        active_staff_ids(members.drop_last()) + (if members.last().status == StaffStatus::Active {
            seq![members.last().id]
        } else {
            Seq::empty()
        })
    }
}

/// What submission accepts: a Monday, not before the caller's `today`, and
/// a period whose 28 days stay within the day-number range.
pub open spec fn spec_submission_valid(period_begin_date: int, today: int) -> bool {
    &&& spec_is_monday(period_begin_date)
    &&& period_begin_date >= today
    &&& period_begin_date + (PERIOD_DAYS as int) <= i32::MAX
}

/// Decides whether a submission is acceptable against the caller's `today`:
/// the begin date must be a Monday, not in the past, and leave room for the
/// 28-day period.
pub fn submission_acceptable(period_begin_date: i32, today: i32) -> (r: bool)
    ensures
        r == spec_submission_valid(period_begin_date as int, today as int),
{
    crate::types::is_monday(period_begin_date) && period_begin_date >= today && period_begin_date
        <= i32::MAX - (PERIOD_DAYS as i32)
}

/// Orchestrates schedule jobs: submission, processing, status queries, and
/// recovery of stale or retry-waiting jobs.
pub struct SchedulingService {
    store: JobStore,
    config: SchedulingConfig,
    rules: Vec<Rule>,
}

/// Everything a successful submission promises: the request was acceptable
/// and exactly one pending job with the next id was appended to the store.
pub open spec fn submit_ok_post(
    pre: SchedulingService,
    post: SchedulingService,
    staff_group_id: u128,
    period_begin_date: i32,
    today: i32,
    job: ScheduleJob,
) -> bool {
    &&& spec_submission_valid(period_begin_date as int, today as int)
    &&& job == (ScheduleJob {
        id: pre.spec_store().spec_next_job_id(),
        staff_group_id,
        period_begin_date,
        status: JobStatus::Pending,
        created_at: pre.spec_store().spec_clock(),
        updated_at: pre.spec_store().spec_clock(),
    })
    &&& post.spec_store().spec_jobs() == pre.spec_store().spec_jobs().push(job)
    &&& post.spec_store().spec_assignments() == pre.spec_store().spec_assignments()
    &&& post.spec_store().spec_next_job_id() == pre.spec_store().spec_next_job_id() + 1
    &&& post.spec_store().spec_next_assignment_id() == pre.spec_store().spec_next_assignment_id()
    &&& post.spec_store().spec_clock() == pre.spec_store().spec_clock() + 1
    &&& post.spec_config() == pre.spec_config()
    &&& post.spec_rules() == pre.spec_rules()
}

/// Everything a successful result query promises: the job exists, is
/// completed, and the composite carries its identity and its assignments
/// ordered by (staff id, date).
pub open spec fn get_result_post(s: SchedulingService, job_id: u64, res: ScheduleResult) -> bool {
    &&& match find_job(s.spec_store().spec_jobs(), job_id) {
        Some(j) => {
            &&& j.status == JobStatus::Completed
            &&& res.schedule_id == j.id
            &&& res.period_begin_date == j.period_begin_date
            &&& res.staff_group_id == j.staff_group_id
        },
        None => false,
    }
    &&& res.assignments@ == sort_assignments(
        assignments_of(s.spec_store().spec_assignments(), job_id),
    )
}

impl SchedulingService {
    /// The store, as the contracts see it.
    pub closed spec fn spec_store(&self) -> JobStore {
        self.store
    }

    /// The configuration, as the contracts see it.
    pub closed spec fn spec_config(&self) -> SchedulingConfig {
        self.config
    }

    /// The composed rule list, as the contracts see it.
    pub closed spec fn spec_rules(&self) -> Seq<Rule> {
        self.rules@
    }

    /// Well-formedness carried by every operation: the store is sound,
    /// every stored period fits the day-number range, and the rule list is
    /// the one the configuration calls for.
    pub open spec fn wf(&self) -> bool {
        &&& self.spec_store().wf()
        &&& forall|k: int|
            0 <= k < self.spec_store().spec_jobs().len() ==> (#[trigger] self.spec_store()
                .spec_jobs()[k]).period_begin_date + (PERIOD_DAYS as int) <= i32::MAX
        &&& self.spec_rules() == self.spec_config().spec_build_rules()
    }

    /// A fresh service over an empty store, with the rule list built from
    /// the configuration.
    pub fn new(config: SchedulingConfig) -> (r: Self)
        ensures
            r.wf(),
            r.spec_store().spec_jobs() == Seq::<ScheduleJob>::empty(),
            r.spec_store().spec_assignments().len() == 0,
            r.spec_store().spec_clock() == 1,
            r.spec_store().spec_next_job_id() == 1,
            r.spec_store().spec_next_assignment_id() == 1,
            r.spec_config() == config,
            r.spec_rules() == config.spec_build_rules(),
    {
        let rules = config.build_rules();
        SchedulingService { store: JobStore::new(), config, rules }
    }

    /// Adopts an existing store — the state found at boot — refusing one
    /// that holds a period outside the day-number range.
    pub fn with_store(store: JobStore, config: SchedulingConfig) -> (r: Option<Self>)
        requires
            store.wf(),
        ensures
            match r {
                Some(s) => {
                    &&& s.wf()
                    &&& s.spec_store() == store
                    &&& s.spec_config() == config
                    &&& s.spec_rules() == config.spec_build_rules()
                },
                None => exists|k: int|
                    0 <= k < store.spec_jobs().len() && (#[trigger] store.spec_jobs()[k]).period_begin_date
                        + (PERIOD_DAYS as int) > i32::MAX,
            },
    {
        let n = store.job_count();
        let mut k: usize = 0;
        while k < n
            invariant
                n == store.spec_jobs().len(),
                k <= n,
                forall|t: int|
                    0 <= t < k ==> (#[trigger] store.spec_jobs()[t]).period_begin_date + (
                    PERIOD_DAYS as int) <= i32::MAX,
            decreases n - k,
        {
            let job = store.job_at(k);
            if job.period_begin_date > i32::MAX - (PERIOD_DAYS as i32) {
                return None;
            }
            k = k + 1;
        }
        let rules = config.build_rules();
        Some(SchedulingService { store, config, rules })
    }

    /// Read access to the store, for callers that must check the clock or
    /// counter headroom the mutating operations require.
    pub fn store(&self) -> (r: &JobStore)
        ensures
            *r == self.spec_store(),
    {
        &self.store
    }

    /// The composed rule list.
    pub fn rules(&self) -> (r: &Vec<Rule>)
        ensures
            r@ == self.spec_rules(),
    {
        &self.rules
    }

    /// The configuration.
    pub fn config(&self) -> (r: &SchedulingConfig)
        ensures
            *r == self.spec_config(),
    {
        &self.config
    }

    /// Validates the request against the caller's `today` and records a new
    /// pending job. Returns the created record immediately; processing is
    /// driven separately. Rejects — changing nothing — exactly the requests
    /// `spec_submission_valid` refuses: a non-Monday, a date before `today`,
    /// or a period reaching beyond the day-number range.
    pub fn submit_schedule(
        &mut self,
        staff_group_id: u128,
        period_begin_date: i32,
        today: i32,
    ) -> (r: Result<ScheduleJob, SchedulingServiceError>)
        requires
            old(self).wf(),
            old(self).spec_store().spec_clock() < u64::MAX,
            old(self).spec_store().spec_next_job_id() < u64::MAX,
        ensures
            final(self).wf(),
            match r {
                Ok(job) => submit_ok_post(
                    *old(self),
                    *final(self),
                    staff_group_id,
                    period_begin_date,
                    today,
                    job,
                ),
                Err(e) => {
                    &&& e == SchedulingServiceError::BadRequest
                    &&& !spec_submission_valid(period_begin_date as int, today as int)
                    &&& *final(self) == *old(self)
                },
            },
    {
        if !crate::types::is_monday(period_begin_date) {
            return Err(SchedulingServiceError::BadRequest);
        }
        if period_begin_date < today {
            return Err(SchedulingServiceError::BadRequest);
        }
        if period_begin_date > i32::MAX - (PERIOD_DAYS as i32) {
            return Err(SchedulingServiceError::BadRequest);
        }
        let job = self.store.create_job(staff_group_id, period_begin_date);
        Ok(job)
    }

    /// Looks a job up; an unknown id yields `NotFound`.
    pub fn get_status(&self, job_id: u64) -> (r: Result<ScheduleJob, SchedulingServiceError>)
        requires
            self.wf(),
        ensures
            match r {
                Ok(job) => find_job(self.spec_store().spec_jobs(), job_id) == Some(job),
                Err(e) => {
                    &&& e == SchedulingServiceError::NotFound
                    &&& !has_job(self.spec_store().spec_jobs(), job_id)
                },
            },
    {
        match self.store.find_by_id(job_id) {
            Some(job) => Ok(job),
            None => Err(SchedulingServiceError::NotFound),
        }
    }

    /// Returns the composite result of a completed job: `NotFound` for an
    /// unknown id, `BadRequest` while the job is in any other status.
    pub fn get_result(&self, job_id: u64) -> (r: Result<ScheduleResult, SchedulingServiceError>)
        requires
            self.wf(),
        ensures
            match r {
                Ok(res) => get_result_post(*self, job_id, res),
                Err(SchedulingServiceError::NotFound) => !has_job(
                    self.spec_store().spec_jobs(),
                    job_id,
                ),
                Err(SchedulingServiceError::BadRequest) => match find_job(
                    self.spec_store().spec_jobs(),
                    job_id,
                ) {
                    Some(j) => j.status != JobStatus::Completed,
                    None => false,
                },
                Err(_) => false,
            },
    {
        let job = match self.store.find_by_id(job_id) {
            Some(job) => job,
            None => {
                return Err(SchedulingServiceError::NotFound);
            },
        };
        if job.status != JobStatus::Completed {
            return Err(SchedulingServiceError::BadRequest);
        }
        let assignments = self.store.get_assignments(job_id);
        Ok(ScheduleResult {
            schedule_id: job.id,
            period_begin_date: job.period_begin_date,
            staff_group_id: job.staff_group_id,
            assignments,
        })
    }
}

/// Errors of the roster fetch on which a job is parked for a later retry
/// rather than failed: the breaker fast-fail and transport-level
/// unavailability.
pub open spec fn is_retryable(e: SchedulingServiceError) -> bool {
    e == SchedulingServiceError::CircuitOpen || e == SchedulingServiceError::DataServiceUnavailable
}

/// One status write to the job carrying `id`: exactly that job's status and
/// stamp change when it exists; nothing changes when it does not.
pub open spec fn status_written(pre: JobStore, post: JobStore, id: u64, status: JobStatus) -> bool {
    if has_job(pre.spec_jobs(), id) {
        &&& post.spec_jobs() == pre.spec_jobs().update(
            job_index(pre.spec_jobs(), id),
            ScheduleJob {
                status,
                updated_at: pre.spec_clock(),
                ..pre.spec_jobs()[job_index(pre.spec_jobs(), id)]
            },
        )
        &&& post.spec_clock() == pre.spec_clock() + 1
    } else {
        &&& post.spec_jobs() == pre.spec_jobs()
        &&& post.spec_clock() == pre.spec_clock()
    }
}

/// What a retry sweep does to the job rows: every `WaitingForRetry` job is
/// reset to `Pending` keeping its identity, and every other row is exactly
/// as before.
pub open spec fn waiting_reset(pre: Seq<ScheduleJob>, post: Seq<ScheduleJob>) -> bool {
    &&& post.len() == pre.len()
    &&& forall|k: int|
        0 <= k < pre.len() ==> (if (#[trigger] pre[k]).status == JobStatus::WaitingForRetry {
            &&& post[k].id == pre[k].id
            &&& post[k].staff_group_id == pre[k].staff_group_id
            &&& post[k].period_begin_date == pre[k].period_begin_date
            &&& post[k].created_at == pre[k].created_at
            &&& post[k].status == JobStatus::Pending
        } else {
            post[k] == pre[k]
        })
}

/// What crash recovery does to the job rows: every `Processing` and every
/// `WaitingForRetry` job is reset to `Pending` keeping its identity, and
/// every other row is exactly as before.
pub open spec fn recovered_statuses(pre: Seq<ScheduleJob>, post: Seq<ScheduleJob>) -> bool {
    &&& post.len() == pre.len()
    &&& forall|k: int|
        0 <= k < pre.len() ==> (if (#[trigger] pre[k]).status == JobStatus::Processing || pre[k].status
            == JobStatus::WaitingForRetry {
            &&& post[k].id == pre[k].id
            &&& post[k].staff_group_id == pre[k].staff_group_id
            &&& post[k].period_begin_date == pre[k].period_begin_date
            &&& post[k].created_at == pre[k].created_at
            &&& post[k].status == JobStatus::Pending
        } else {
            post[k] == pre[k]
        })
}

/// There are no more active staff than staff.
pub proof fn lemma_active_staff_ids_len(members: Seq<Staff>)
    ensures
        active_staff_ids(members).len() <= members.len(),
    decreases members.len(),
{
    if members.len() > 0 {
        lemma_active_staff_ids_len(members.drop_last());
    }
}

impl SchedulingService {
    /// Consumes a pending job into the processing state and persists the
    /// `Processing` status — the first half of the background task, before
    /// the roster crosses the network. Fails with `NotFound`, changing
    /// nothing, when the store no longer holds the job.
    pub fn start_processing(&mut self, pending: PendingJob) -> (r: Result<
        ProcessingJob,
        SchedulingServiceError,
    >)
        requires
            old(self).wf(),
            old(self).spec_store().spec_clock() < u64::MAX,
        ensures
            final(self).wf(),
            final(self).spec_store().spec_assignments() == old(self).spec_store().spec_assignments(),
            final(self).spec_store().spec_next_job_id() == old(self).spec_store().spec_next_job_id(),
            final(self).spec_store().spec_next_assignment_id() == old(
                self,
            ).spec_store().spec_next_assignment_id(),
            final(self).spec_config() == old(self).spec_config(),
            final(self).spec_rules() == old(self).spec_rules(),
            match r {
                Ok(p) => {
                    &&& p.job() == (ScheduleJob {
                        status: JobStatus::Processing,
                        ..pending.job()
                    })
                    &&& has_job(old(self).spec_store().spec_jobs(), pending.job().id)
                    &&& status_written(
                        old(self).spec_store(),
                        final(self).spec_store(),
                        pending.job().id,
                        JobStatus::Processing,
                    )
                },
                Err(e) => {
                    &&& e == SchedulingServiceError::NotFound
                    &&& !has_job(old(self).spec_store().spec_jobs(), pending.job().id)
                    &&& final(self).spec_store().spec_jobs() == old(self).spec_store().spec_jobs()
                    &&& final(self).spec_store().spec_clock() == old(self).spec_store().spec_clock()
                },
            },
    {
        let (processing, id, status) = pending.start_processing();
        match self.store.update_status(id, status) {
            Ok(()) => {
                proof {
                    let pre = old(self).spec_store().spec_jobs();
                    let ki = job_index(pre, id);
                    assert forall|k: int|
                        0 <= k < self.spec_store().spec_jobs().len() implies (
                    #[trigger] self.spec_store().spec_jobs()[k]).period_begin_date + (
                    PERIOD_DAYS as int) <= i32::MAX by {
                        if k != ki {
                            assert(self.spec_store().spec_jobs()[k] == pre[k]);
                        }
                    };
                }
                Ok(processing)
            },
            Err(e) => Err(e),
        }
    }

    /// Finishes the background task with the outcome of the roster fetch —
    /// the second half, after the network.
    ///
    /// A retryable fetch error (`CircuitOpen`, `DataServiceUnavailable`)
    /// parks the job as `WaitingForRetry`; any other fetch error fails it;
    /// in both cases the error is passed back. A delivered roster is
    /// filtered to active staff and scheduled: on success the assignments
    /// are saved and the job completed; the job is failed with `Internal`
    /// only when the active roster is genuinely infeasible — no schedule at
    /// all satisfies the rules — so on a schedulable roster the job held by
    /// the store always completes. Only the terminal status write of the
    /// success path can surface a store error (`NotFound`).
    pub fn finish_processing(
        &mut self,
        processing: ProcessingJob,
        fetch: Result<Vec<Staff>, SchedulingServiceError>,
    ) -> (r: Result<(), SchedulingServiceError>)
        requires
            old(self).wf(),
            old(self).spec_store().spec_clock() < u64::MAX,
            processing.job().period_begin_date + (PERIOD_DAYS as int) <= i32::MAX,
            fetch matches Ok(m) ==> m@.len() * (PERIOD_DAYS as int) <= usize::MAX && old(
                self,
            ).spec_store().spec_next_assignment_id() + m@.len() * (PERIOD_DAYS as int) <= u64::MAX,
        ensures
            final(self).wf(),
            final(self).spec_store().spec_next_job_id() == old(self).spec_store().spec_next_job_id(),
            final(self).spec_config() == old(self).spec_config(),
            final(self).spec_rules() == old(self).spec_rules(),
            match fetch {
                Err(e) => {
                    &&& r == Err::<(), SchedulingServiceError>(e)
                    &&& final(self).spec_store().spec_assignments() == old(
                        self,
                    ).spec_store().spec_assignments()
                    &&& status_written(
                        old(self).spec_store(),
                        final(self).spec_store(),
                        processing.job().id,
                        if is_retryable(e) {
                            JobStatus::WaitingForRetry
                        } else {
                            JobStatus::Failed
                        },
                    )
                },
                Ok(members) => match r {
                    Ok(()) => exists|sched: Seq<NewShiftAssignment>|
                        {
                            &&& #[trigger] valid_schedule(
                                sched,
                                active_staff_ids(members@),
                                processing.job().period_begin_date as int,
                                old(self).spec_rules(),
                            )
                            &&& final(self).spec_store().spec_assignments() == old(
                                self,
                            ).spec_store().spec_assignments() + attach_ids(
                                sched,
                                processing.job().id,
                                old(self).spec_store().spec_next_assignment_id() as int,
                            )
                            &&& status_written(
                                old(self).spec_store(),
                                final(self).spec_store(),
                                processing.job().id,
                                JobStatus::Completed,
                            )
                            &&& has_job(old(self).spec_store().spec_jobs(), processing.job().id)
                        },
                    Err(SchedulingServiceError::Internal) => {
                        &&& final(self).spec_store().spec_assignments() == old(
                            self,
                        ).spec_store().spec_assignments()
                        &&& status_written(
                            old(self).spec_store(),
                            final(self).spec_store(),
                            processing.job().id,
                            JobStatus::Failed,
                        )
                        &&& active_staff_ids(members@).len() > 0
                        &&& !schedulable(
                            active_staff_ids(members@),
                            processing.job().period_begin_date as int,
                            old(self).spec_rules(),
                        )
                    },
                    Err(SchedulingServiceError::NotFound) => !has_job(
                        old(self).spec_store().spec_jobs(),
                        processing.job().id,
                    ),
                    Err(_) => false,
                },
            },
    {
        let job_id = processing.id();
        let period_begin_date = processing.period_begin_date();

        let members = match fetch {
            Ok(m) => m,
            Err(e) => {
                let retryable = match e {
                    SchedulingServiceError::CircuitOpen => true,
                    SchedulingServiceError::DataServiceUnavailable => true,
                    _ => false,
                };
                if retryable {
                    let (_waiting, id, status) = processing.wait_for_retry();
                    // A failure to persist the park is the caller's to log;
                    // the underlying cause is passed back either way.
                    let _ = self.store.update_status(id, status);
                } else {
                    let (_failed, id, status) = processing.fail();
                    let _ = self.store.update_status(id, status);
                }
                proof {
                    self.lemma_wf_after_update(*old(self));
                }
                return Err(e);
            },
        };

        let mut active_ids: Vec<u128> = Vec::new();
        let n = members.len();
        let mut k: usize = 0;
        while k < n
            invariant
                n == members@.len(),
                k <= n,
                active_ids@ == active_staff_ids(members@.subrange(0, k as int)),
            decreases n - k,
        {
            proof {
                let sub1 = members@.subrange(0, k + 1);
                assert(sub1.drop_last() =~= members@.subrange(0, k as int));
                assert(sub1.last() == members@[k as int]);
            }
            if members[k].status == StaffStatus::Active {
                active_ids.push(members[k].id);
            }
            k = k + 1;
        }
        proof {
            assert(members@.subrange(0, n as int) =~= members@);
            lemma_active_staff_ids_len(members@);
        }

        match gen_schedule(&active_ids, period_begin_date, &self.rules) {
            Ok(assignments) => {
                let ghost sched = assignments@;
                match self.store.save_assignments(job_id, assignments) {
                    Ok(()) => {},
                    Err(_) => {},
                }
                let (_completed, id, status) = processing.complete();
                match self.store.update_status(id, status) {
                    Ok(()) => {
                        proof {
                            self.lemma_wf_after_update(*old(self));
                        }
                        Ok(())
                    },
                    Err(e) => {
                        proof {
                            self.lemma_wf_after_update(*old(self));
                        }
                        Err(e)
                    },
                }
            },
            Err(_) => {
                let (_failed, id, status) = processing.fail();
                let _ = self.store.update_status(id, status);
                proof {
                    self.lemma_wf_after_update(*old(self));
                }
                Err(SchedulingServiceError::Internal)
            },
        }
    }

    /// Resets all `WaitingForRetry` jobs to `Pending` and returns their ids
    /// in creation order for re-processing. Called when the data service
    /// recovers, and as the second half of crash recovery. Touches nothing
    /// else: every other job and all assignments are exactly as before.
    pub fn retry_waiting_jobs(&mut self) -> (r: Result<Vec<u64>, SchedulingServiceError>)
        requires
            old(self).wf(),
            old(self).spec_store().spec_clock() + old(self).spec_store().spec_jobs().len()
                <= u64::MAX,
        ensures
            final(self).wf(),
            waiting_reset(old(self).spec_store().spec_jobs(), final(self).spec_store().spec_jobs()),
            final(self).spec_store().spec_assignments() == old(self).spec_store().spec_assignments(),
            final(self).spec_store().spec_next_job_id() == old(self).spec_store().spec_next_job_id(),
            final(self).spec_store().spec_next_assignment_id() == old(
                self,
            ).spec_store().spec_next_assignment_id(),
            final(self).spec_store().spec_clock() <= old(self).spec_store().spec_clock() + old(
                self,
            ).spec_store().spec_jobs().len(),
            final(self).spec_config() == old(self).spec_config(),
            final(self).spec_rules() == old(self).spec_rules(),
            match r {
                Ok(ids) => ids@ == job_ids(
                    jobs_with_status(
                        old(self).spec_store().spec_jobs(),
                        JobStatus::WaitingForRetry,
                    ),
                ),
                Err(_) => false,
            },
    {
        let ghost pre_jobs = self.spec_store().spec_jobs();
        let ghost pre_clock = self.spec_store().spec_clock();
        let waiting = self.store.find_by_status(JobStatus::WaitingForRetry);
        proof {
            crate::store::lemma_jobs_with_status_sound(pre_jobs, JobStatus::WaitingForRetry);
            crate::store::lemma_jobs_with_status_complete(pre_jobs, JobStatus::WaitingForRetry);
            crate::store::lemma_jobs_with_status_len(pre_jobs, JobStatus::WaitingForRetry);
        }
        let mut ids: Vec<u64> = Vec::new();
        let m = waiting.len();
        let mut t: usize = 0;
        while t < m
            invariant
                m == waiting@.len(),
                waiting@ == jobs_with_status(pre_jobs, JobStatus::WaitingForRetry),
                forall|u: int|
                    0 <= u < m ==> (#[trigger] waiting@[u]).status == JobStatus::WaitingForRetry
                        && exists|k: int| 0 <= k < pre_jobs.len() && pre_jobs[k] == waiting@[u],
                t <= m,
                ids@.len() == t,
                forall|u: int| 0 <= u < t ==> #[trigger] ids@[u] == waiting@[u].id,
                pre_jobs == old(self).spec_store().spec_jobs(),
                pre_clock == old(self).spec_store().spec_clock(),
                pre_clock + pre_jobs.len() <= u64::MAX,
                m <= pre_jobs.len(),
                self.spec_store().wf(),
                self.spec_store().spec_jobs().len() == pre_jobs.len(),
                forall|k: int|
                    0 <= k < pre_jobs.len() ==> #[trigger] self.spec_store().spec_jobs()[k].id
                        == pre_jobs[k].id,
                forall|k: int|
                    0 <= k < pre_jobs.len() ==> (if (#[trigger] pre_jobs[k]).status
                        == JobStatus::WaitingForRetry && (exists|u: int|
                        0 <= u < t && (#[trigger] waiting@[u]).id == pre_jobs[k].id) {
                        &&& self.spec_store().spec_jobs()[k].id == pre_jobs[k].id
                        &&& self.spec_store().spec_jobs()[k].staff_group_id
                            == pre_jobs[k].staff_group_id
                        &&& self.spec_store().spec_jobs()[k].period_begin_date
                            == pre_jobs[k].period_begin_date
                        &&& self.spec_store().spec_jobs()[k].created_at == pre_jobs[k].created_at
                        &&& self.spec_store().spec_jobs()[k].status == JobStatus::Pending
                    } else {
                        self.spec_store().spec_jobs()[k] == pre_jobs[k]
                    }),
                self.spec_store().spec_clock() >= pre_clock,
                self.spec_store().spec_clock() <= pre_clock + t,
                self.spec_store().spec_assignments() == old(self).spec_store().spec_assignments(),
                self.spec_store().spec_next_job_id() == old(self).spec_store().spec_next_job_id(),
                self.spec_store().spec_next_assignment_id() == old(
                    self,
                ).spec_store().spec_next_assignment_id(),
                self.spec_config() == old(self).spec_config(),
                self.spec_rules() == old(self).spec_rules(),
            decreases m - t,
        {
            let jid = waiting[t].id;
            let ghost cur_jobs = self.spec_store().spec_jobs();
            proof {
                let kk = choose|k: int| 0 <= k < pre_jobs.len() && pre_jobs[k] == waiting@[t as int];
                assert(cur_jobs[kk].id == jid);
                assert(has_job(cur_jobs, jid));
            }
            match self.store.update_status(jid, JobStatus::Pending) {
                Ok(()) => {},
                Err(e) => {
                    proof {
                        assert(false);
                    }
                    return Err(e);
                },
            }
            proof {
                let ki = job_index(cur_jobs, jid);
                assert(0 <= ki < cur_jobs.len() && cur_jobs[ki].id == jid);
                let kk = choose|k: int| 0 <= k < pre_jobs.len() && pre_jobs[k] == waiting@[t as int];
                // With unique ids the updated index is the one carrying jid.
                if ki != kk {
                    assert(cur_jobs[ki].id != cur_jobs[kk].id);
                }
                assert(ki == kk);
                assert(pre_jobs[ki].status == JobStatus::WaitingForRetry);
                assert forall|k: int|
                    0 <= k < pre_jobs.len() implies (if (#[trigger] pre_jobs[k]).status
                    == JobStatus::WaitingForRetry && (exists|u: int|
                    0 <= u < t + 1 && (#[trigger] waiting@[u]).id == pre_jobs[k].id) {
                    &&& self.spec_store().spec_jobs()[k].id == pre_jobs[k].id
                    &&& self.spec_store().spec_jobs()[k].staff_group_id == pre_jobs[k].staff_group_id
                    &&& self.spec_store().spec_jobs()[k].period_begin_date
                        == pre_jobs[k].period_begin_date
                    &&& self.spec_store().spec_jobs()[k].created_at == pre_jobs[k].created_at
                    &&& self.spec_store().spec_jobs()[k].status == JobStatus::Pending
                } else {
                    self.spec_store().spec_jobs()[k] == pre_jobs[k]
                }) by {
                    if k == ki {
                        assert(waiting@[t as int].id == pre_jobs[k].id);
                    } else {
                        assert(self.spec_store().spec_jobs()[k] == cur_jobs[k]);
                        if pre_jobs[k].status == JobStatus::WaitingForRetry {
                            if exists|u: int|
                                0 <= u < t + 1 && (#[trigger] waiting@[u]).id == pre_jobs[k].id {
                                let u = choose|u: int|
                                    0 <= u < t + 1 && (#[trigger] waiting@[u]).id == pre_jobs[k].id;
                                if u == t {
                                    // Then this job carries jid too, so by
                                    // uniqueness it is the updated index.
                                    assert(cur_jobs[k].id == jid);
                                    if k < ki {
                                        assert(cur_jobs[k].id != cur_jobs[ki].id);
                                    }
                                    if ki < k {
                                        assert(cur_jobs[ki].id != cur_jobs[k].id);
                                    }
                                    assert(false);
                                } else {
                                    assert(0 <= u < t && waiting@[u].id == pre_jobs[k].id);
                                }
                            }
                        }
                    }
                };
            }
            ids.push(jid);
            t = t + 1;
        }
        proof {
            assert forall|k: int|
                0 <= k < pre_jobs.len() implies (if (#[trigger] pre_jobs[k]).status
                == JobStatus::WaitingForRetry {
                &&& self.spec_store().spec_jobs()[k].id == pre_jobs[k].id
                &&& self.spec_store().spec_jobs()[k].staff_group_id == pre_jobs[k].staff_group_id
                &&& self.spec_store().spec_jobs()[k].period_begin_date
                    == pre_jobs[k].period_begin_date
                &&& self.spec_store().spec_jobs()[k].created_at == pre_jobs[k].created_at
                &&& self.spec_store().spec_jobs()[k].status == JobStatus::Pending
            } else {
                self.spec_store().spec_jobs()[k] == pre_jobs[k]
            }) by {
                if pre_jobs[k].status == JobStatus::WaitingForRetry {
                    assert(waiting@.contains(pre_jobs[k]));
                    let u = choose|u: int| 0 <= u < waiting@.len() && waiting@[u] == pre_jobs[k];
                    assert(waiting@[u].id == pre_jobs[k].id);
                }
            };
            assert(ids@ =~= job_ids(waiting@));
            self.lemma_wf_after_update(*old(self));
        }
        Ok(ids)
    }

    /// Recovers jobs left in `Processing` by a crash: for each one, in
    /// creation order, its partial assignments are deleted and its status
    /// reset to `Pending`; then all `WaitingForRetry` jobs are reset too.
    /// Returns the ids to re-process, stale ones first. Afterwards no job
    /// stands in `Processing` or `WaitingForRetry`, every formerly stale
    /// job has no assignments left, and every other job's rows and
    /// assignments are exactly as before.
    #[verifier::rlimit(100)]
    pub fn recover_stale_jobs(&mut self) -> (r: Result<Vec<u64>, SchedulingServiceError>)
        requires
            old(self).wf(),
            old(self).spec_store().spec_clock() + 2 * old(self).spec_store().spec_jobs().len()
                <= u64::MAX,
        ensures
            final(self).wf(),
            recovered_statuses(
                old(self).spec_store().spec_jobs(),
                final(self).spec_store().spec_jobs(),
            ),
            final(self).spec_store().spec_next_job_id() == old(self).spec_store().spec_next_job_id(),
            final(self).spec_store().spec_next_assignment_id() == old(
                self,
            ).spec_store().spec_next_assignment_id(),
            final(self).spec_config() == old(self).spec_config(),
            final(self).spec_rules() == old(self).spec_rules(),
            forall|k: int|
                0 <= k < old(self).spec_store().spec_jobs().len() && (#[trigger] old(
                    self,
                ).spec_store().spec_jobs()[k]).status == JobStatus::Processing ==> assignments_of(
                    final(self).spec_store().spec_assignments(),
                    old(self).spec_store().spec_jobs()[k].id,
                ) == Seq::<crate::types::ShiftAssignment>::empty(),
            forall|id: u64|
                !(exists|k: int|
                    0 <= k < old(self).spec_store().spec_jobs().len() && (#[trigger] old(
                        self,
                    ).spec_store().spec_jobs()[k]).status == JobStatus::Processing && old(
                        self,
                    ).spec_store().spec_jobs()[k].id == id) ==> #[trigger] assignments_of(
                    final(self).spec_store().spec_assignments(),
                    id,
                ) == assignments_of(old(self).spec_store().spec_assignments(), id),
            match r {
                Ok(ids) => ids@ == job_ids(
                    jobs_with_status(old(self).spec_store().spec_jobs(), JobStatus::Processing),
                ) + job_ids(
                    jobs_with_status(
                        old(self).spec_store().spec_jobs(),
                        JobStatus::WaitingForRetry,
                    ),
                ),
                Err(_) => false,
            },
    {
        let ghost pre_jobs = self.spec_store().spec_jobs();
        let ghost pre_assignments = self.spec_store().spec_assignments();
        let ghost pre_clock = self.spec_store().spec_clock();
        let stale = self.store.find_by_status(JobStatus::Processing);
        proof {
            crate::store::lemma_jobs_with_status_sound(pre_jobs, JobStatus::Processing);
            crate::store::lemma_jobs_with_status_complete(pre_jobs, JobStatus::Processing);
            crate::store::lemma_jobs_with_status_len(pre_jobs, JobStatus::Processing);
        }
        let mut ids: Vec<u64> = Vec::new();
        let m = stale.len();
        let mut t: usize = 0;
        while t < m
            invariant
                m == stale@.len(),
                stale@ == jobs_with_status(pre_jobs, JobStatus::Processing),
                forall|u: int|
                    0 <= u < m ==> (#[trigger] stale@[u]).status == JobStatus::Processing && exists|
                        k: int,
                    | 0 <= k < pre_jobs.len() && pre_jobs[k] == stale@[u],
                t <= m,
                ids@.len() == t,
                forall|u: int| 0 <= u < t ==> #[trigger] ids@[u] == stale@[u].id,
                pre_jobs == old(self).spec_store().spec_jobs(),
                pre_assignments == old(self).spec_store().spec_assignments(),
                pre_clock == old(self).spec_store().spec_clock(),
                pre_clock + 2 * pre_jobs.len() <= u64::MAX,
                m <= pre_jobs.len(),
                self.spec_store().wf(),
                self.spec_store().spec_jobs().len() == pre_jobs.len(),
                forall|k: int|
                    0 <= k < pre_jobs.len() ==> #[trigger] self.spec_store().spec_jobs()[k].id
                        == pre_jobs[k].id,
                forall|k: int|
                    0 <= k < pre_jobs.len() ==> (if (#[trigger] pre_jobs[k]).status
                        == JobStatus::Processing && (exists|u: int|
                        0 <= u < t && (#[trigger] stale@[u]).id == pre_jobs[k].id) {
                        &&& self.spec_store().spec_jobs()[k].id == pre_jobs[k].id
                        &&& self.spec_store().spec_jobs()[k].staff_group_id
                            == pre_jobs[k].staff_group_id
                        &&& self.spec_store().spec_jobs()[k].period_begin_date
                            == pre_jobs[k].period_begin_date
                        &&& self.spec_store().spec_jobs()[k].created_at == pre_jobs[k].created_at
                        &&& self.spec_store().spec_jobs()[k].status == JobStatus::Pending
                    } else {
                        self.spec_store().spec_jobs()[k] == pre_jobs[k]
                    }),
                self.spec_store().spec_clock() >= pre_clock,
                self.spec_store().spec_clock() <= pre_clock + t,
                forall|u: int|
                    0 <= u < t ==> #[trigger] assignments_of(
                        self.spec_store().spec_assignments(),
                        stale@[u].id,
                    ) == Seq::<crate::types::ShiftAssignment>::empty(),
                forall|id: u64|
                    (forall|u: int| 0 <= u < t ==> (#[trigger] stale@[u]).id != id)
                        ==> #[trigger] assignments_of(self.spec_store().spec_assignments(), id)
                        == assignments_of(pre_assignments, id),
                self.spec_store().spec_next_job_id() == old(self).spec_store().spec_next_job_id(),
                self.spec_store().spec_next_assignment_id() == old(
                    self,
                ).spec_store().spec_next_assignment_id(),
                self.spec_config() == old(self).spec_config(),
                self.spec_rules() == old(self).spec_rules(),
            decreases m - t,
        {
            let jid = stale[t].id;
            let ghost a_before = self.spec_store().spec_assignments();
            let _ = self.store.delete_assignments(jid);
            proof {
                let a_after = self.spec_store().spec_assignments();
                assert forall|u: int| 0 <= u < t + 1 implies #[trigger] assignments_of(
                    a_after,
                    stale@[u].id,
                ) == Seq::<crate::types::ShiftAssignment>::empty() by {
                    crate::store::lemma_assignments_of_without(a_before, jid, stale@[u].id);
                };
                assert forall|id: u64|
                    (forall|u: int| 0 <= u < t + 1 ==> (#[trigger] stale@[u]).id != id)
                        implies #[trigger] assignments_of(a_after, id) == assignments_of(
                    pre_assignments,
                    id,
                ) by {
                    assert(stale@[t as int].id != id);
                    crate::store::lemma_assignments_of_without(a_before, jid, id);
                };
            }
            let ghost cur_jobs = self.spec_store().spec_jobs();
            proof {
                let kk = choose|k: int| 0 <= k < pre_jobs.len() && pre_jobs[k] == stale@[t as int];
                assert(cur_jobs[kk].id == jid);
                assert(has_job(cur_jobs, jid));
            }
            match self.store.update_status(jid, JobStatus::Pending) {
                Ok(()) => {},
                Err(e) => {
                    proof {
                        assert(false);
                    }
                    return Err(e);
                },
            }
            proof {
                let ki = job_index(cur_jobs, jid);
                assert(0 <= ki < cur_jobs.len() && cur_jobs[ki].id == jid);
                let kk = choose|k: int| 0 <= k < pre_jobs.len() && pre_jobs[k] == stale@[t as int];
                if ki != kk {
                    assert(cur_jobs[ki].id != cur_jobs[kk].id);
                }
                assert(ki == kk);
                assert(pre_jobs[ki].status == JobStatus::Processing);
                assert forall|k: int|
                    0 <= k < pre_jobs.len() implies (if (#[trigger] pre_jobs[k]).status
                    == JobStatus::Processing && (exists|u: int|
                    0 <= u < t + 1 && (#[trigger] stale@[u]).id == pre_jobs[k].id) {
                    &&& self.spec_store().spec_jobs()[k].id == pre_jobs[k].id
                    &&& self.spec_store().spec_jobs()[k].staff_group_id == pre_jobs[k].staff_group_id
                    &&& self.spec_store().spec_jobs()[k].period_begin_date
                        == pre_jobs[k].period_begin_date
                    &&& self.spec_store().spec_jobs()[k].created_at == pre_jobs[k].created_at
                    &&& self.spec_store().spec_jobs()[k].status == JobStatus::Pending
                } else {
                    self.spec_store().spec_jobs()[k] == pre_jobs[k]
                }) by {
                    if k == ki {
                        assert(stale@[t as int].id == pre_jobs[k].id);
                    } else {
                        assert(self.spec_store().spec_jobs()[k] == cur_jobs[k]);
                        if pre_jobs[k].status == JobStatus::Processing {
                            if exists|u: int|
                                0 <= u < t + 1 && (#[trigger] stale@[u]).id == pre_jobs[k].id {
                                let u = choose|u: int|
                                    0 <= u < t + 1 && (#[trigger] stale@[u]).id == pre_jobs[k].id;
                                if u == t {
                                    assert(cur_jobs[k].id == jid);
                                    if k < ki {
                                        assert(cur_jobs[k].id != cur_jobs[ki].id);
                                    }
                                    if ki < k {
                                        assert(cur_jobs[ki].id != cur_jobs[k].id);
                                    }
                                    assert(false);
                                } else {
                                    assert(0 <= u < t && stale@[u].id == pre_jobs[k].id);
                                }
                            }
                        }
                    }
                };
            }
            ids.push(jid);
            t = t + 1;
        }
        proof {
            assert forall|k: int|
                0 <= k < pre_jobs.len() implies (if (#[trigger] pre_jobs[k]).status
                == JobStatus::Processing {
                &&& self.spec_store().spec_jobs()[k].id == pre_jobs[k].id
                &&& self.spec_store().spec_jobs()[k].staff_group_id == pre_jobs[k].staff_group_id
                &&& self.spec_store().spec_jobs()[k].period_begin_date
                    == pre_jobs[k].period_begin_date
                &&& self.spec_store().spec_jobs()[k].created_at == pre_jobs[k].created_at
                &&& self.spec_store().spec_jobs()[k].status == JobStatus::Pending
            } else {
                self.spec_store().spec_jobs()[k] == pre_jobs[k]
            }) by {
                if pre_jobs[k].status == JobStatus::Processing {
                    assert(stale@.contains(pre_jobs[k]));
                    let u = choose|u: int| 0 <= u < stale@.len() && stale@[u] == pre_jobs[k];
                    assert(stale@[u].id == pre_jobs[k].id);
                }
            };
            self.lemma_wf_after_update(*old(self));
        }

        let ghost mid_jobs = self.spec_store().spec_jobs();
        let ghost mid_assignments = self.spec_store().spec_assignments();
        let waiting_ids = match self.retry_waiting_jobs() {
            Ok(v) => v,
            Err(e) => {
                proof {
                    assert(false);
                }
                return Err(e);
            },
        };
        proof {
            // The sweep saw exactly the waiting jobs of the pre-recovery
            // state: the stale loop touched only `Processing` rows.
            crate::store::lemma_jobs_with_status_pointwise(
                mid_jobs,
                pre_jobs,
                JobStatus::WaitingForRetry,
            );
            // Compose the two resets.
            assert forall|k: int|
                0 <= k < pre_jobs.len() implies (if (#[trigger] pre_jobs[k]).status
                == JobStatus::Processing || pre_jobs[k].status == JobStatus::WaitingForRetry {
                &&& self.spec_store().spec_jobs()[k].id == pre_jobs[k].id
                &&& self.spec_store().spec_jobs()[k].staff_group_id == pre_jobs[k].staff_group_id
                &&& self.spec_store().spec_jobs()[k].period_begin_date
                    == pre_jobs[k].period_begin_date
                &&& self.spec_store().spec_jobs()[k].created_at == pre_jobs[k].created_at
                &&& self.spec_store().spec_jobs()[k].status == JobStatus::Pending
            } else {
                self.spec_store().spec_jobs()[k] == pre_jobs[k]
            }) by {
                if pre_jobs[k].status == JobStatus::Processing {
                    assert(mid_jobs[k].status == JobStatus::Pending);
                }
            };
        }

        let mut all_ids = ids;
        let ghost stale_ids = all_ids@;
        let n2 = waiting_ids.len();
        let mut i: usize = 0;
        while i < n2
            invariant
                n2 == waiting_ids@.len(),
                i <= n2,
                all_ids@ == stale_ids + waiting_ids@.subrange(0, i as int),
            decreases n2 - i,
        {
            proof {
                assert(waiting_ids@.subrange(0, i + 1) =~= waiting_ids@.subrange(0, i as int).push(
                    waiting_ids@[i as int],
                ));
            }
            all_ids.push(waiting_ids[i]);
            i = i + 1;
        }
        proof {
            assert(waiting_ids@.subrange(0, n2 as int) =~= waiting_ids@);
        }
        Ok(all_ids)
    }

    /// The date bound of `wf` survives any run of status writes, which
    /// never touch a stored period.
    proof fn lemma_wf_after_update(&self, pre: SchedulingService)
        requires
            forall|k: int|
                0 <= k < pre.spec_store().spec_jobs().len() ==> (#[trigger] pre.spec_store()
                    .spec_jobs()[k]).period_begin_date + (PERIOD_DAYS as int) <= i32::MAX,
            self.spec_store().spec_jobs().len() == pre.spec_store().spec_jobs().len(),
            forall|k: int|
                0 <= k < self.spec_store().spec_jobs().len() ==> (#[trigger] self.spec_store()
                    .spec_jobs()[k]).period_begin_date == pre.spec_store().spec_jobs()[k].period_begin_date,
        ensures
            forall|k: int|
                0 <= k < self.spec_store().spec_jobs().len() ==> (#[trigger] self.spec_store()
                    .spec_jobs()[k]).period_begin_date + (PERIOD_DAYS as int) <= i32::MAX,
    {
    }
}

/// Law: after crash recovery — the stale sweep together with the retry
/// sweep — no job at all stands in `Processing` or `WaitingForRetry`
/// status: each one is `Pending` again or was already past them.
pub proof fn lemma_recovery_leaves_none_in_flight(pre: Seq<ScheduleJob>, post: Seq<ScheduleJob>)
    requires
        recovered_statuses(pre, post),
    ensures
        jobs_with_status(post, JobStatus::Processing) == Seq::<ScheduleJob>::empty(),
        jobs_with_status(post, JobStatus::WaitingForRetry) == Seq::<ScheduleJob>::empty(),
{
    assert forall|k: int| 0 <= k < post.len() implies (#[trigger] post[k]).status
        != JobStatus::Processing && post[k].status != JobStatus::WaitingForRetry by {
        if pre[k].status == JobStatus::Processing || pre[k].status == JobStatus::WaitingForRetry {
            assert(post[k].status == JobStatus::Pending);
        }
    };
    crate::store::lemma_jobs_with_status_empty(post, JobStatus::Processing);
    crate::store::lemma_jobs_with_status_empty(post, JobStatus::WaitingForRetry);
}

/// Law: submitting twice — the same request or any other — yields two jobs
/// with distinct ids.
pub proof fn lemma_two_submissions_distinct_ids(
    s0: SchedulingService,
    s1: SchedulingService,
    s2: SchedulingService,
    group1: u128,
    period1: i32,
    today1: i32,
    job1: ScheduleJob,
    group2: u128,
    period2: i32,
    today2: i32,
    job2: ScheduleJob,
)
    requires
        submit_ok_post(s0, s1, group1, period1, today1, job1),
        submit_ok_post(s1, s2, group2, period2, today2, job2),
        s0.spec_store().spec_next_job_id() < u64::MAX,
    ensures
        job1.id != job2.id,
{
}

/// Law: querying the result of a completed job is idempotent — any two
/// results the contract admits for the same state carry identical payloads.
pub proof fn lemma_get_result_idempotent(
    s: SchedulingService,
    job_id: u64,
    r1: ScheduleResult,
    r2: ScheduleResult,
)
    requires
        get_result_post(s, job_id, r1),
        get_result_post(s, job_id, r2),
    ensures
        r1.schedule_id == r2.schedule_id,
        r1.period_begin_date == r2.period_begin_date,
        r1.staff_group_id == r2.staff_group_id,
        r1.assignments@ == r2.assignments@,
{
}

} // verus!
