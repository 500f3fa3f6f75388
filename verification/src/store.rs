//! Durable persistence of jobs and their assignments, modelled as a store
//! whose whole state the contracts describe.
//!
//! Jobs are held in creation order; `created_at` and `updated_at` are drawn
//! from a logical clock that advances on every stamped write, so
//! `updated_at` strictly advances on every status change and creation order
//! agrees with `created_at`. Ids are handed out by counters and never
//! reused. The binary around the library may put any other implementation
//! with the same contracts behind these operations; the service logic is
//! verified against the contracts alone.

use vstd::prelude::*;

use crate::error::SchedulingServiceError;
use crate::types::{JobStatus, NewShiftAssignment, ScheduleJob, ShiftAssignment};

verus! {

/// Whether some job in `jobs` carries `id`.
pub open spec fn has_job(jobs: Seq<ScheduleJob>, id: u64) -> bool {
    exists|k: int| 0 <= k < jobs.len() && #[trigger] jobs[k].id == id
}

/// The index of the job carrying `id` (meaningful when `has_job` holds;
/// with unique ids it is the only match).
pub open spec fn job_index(jobs: Seq<ScheduleJob>, id: u64) -> int {
    choose|k: int| 0 <= k < jobs.len() && #[trigger] jobs[k].id == id
}

/// The job carrying `id`, if any.
pub open spec fn find_job(jobs: Seq<ScheduleJob>, id: u64) -> Option<ScheduleJob> {
    if has_job(jobs, id) {
        Some(jobs[job_index(jobs, id)])
    } else {
        None
    }
}

/// The jobs with the given status, in stored (creation) order.
pub open spec fn jobs_with_status(jobs: Seq<ScheduleJob>, status: JobStatus) -> Seq<ScheduleJob>
    decreases jobs.len(),
{
    if jobs.len() == 0 {
        Seq::empty()
    } else {
        jobs_with_status(jobs.drop_last(), status) + (if jobs.last().status == status {
            seq![jobs.last()]
        } else {
            Seq::empty()
        })
    }
}

/// The assignments belonging to `job_id`, in stored order.
pub open spec fn assignments_of(s: Seq<ShiftAssignment>, job_id: u64) -> Seq<ShiftAssignment>
    decreases s.len(),
{
    if s.len() == 0 {
        Seq::empty()
    } else {
        assignments_of(s.drop_last(), job_id) + (if s.last().job_id == job_id {
            seq![s.last()]
        } else {
            Seq::empty()
        })
    }
}

/// The assignments not belonging to `job_id`, in stored order.
pub open spec fn assignments_without(s: Seq<ShiftAssignment>, job_id: u64) -> Seq<ShiftAssignment>
    decreases s.len(),
{
    if s.len() == 0 {
        Seq::empty()
    } else {
        assignments_without(s.drop_last(), job_id) + (if s.last().job_id != job_id {
            seq![s.last()]
        } else {
            Seq::empty()
        })
    }
}

/// Rows for the generator's output: consecutive ids from `first_id`, all
/// owned by `job_id`, one per produced assignment, in the produced order.
pub open spec fn attach_ids(
    list: Seq<NewShiftAssignment>,
    job_id: u64,
    first_id: int,
) -> Seq<ShiftAssignment> {
    Seq::new(
        list.len(),
        |k: int|
            ShiftAssignment {
                id: (first_id + k) as u64,
                job_id,
                staff_id: list[k].staff_id,
                date: list[k].date,
                shift_type: list[k].shift_type,
            },
    )
}

/// `a` sorts at or before `b` in result order: by staff id, then date.
pub open spec fn key_le(a: ShiftAssignment, b: ShiftAssignment) -> bool {
    a.staff_id < b.staff_id || (a.staff_id == b.staff_id && a.date <= b.date)
}

/// Stable insertion of `x` into a sorted run: `x` lands after every element
/// that sorts at or before it.
pub open spec fn insert_sorted(s: Seq<ShiftAssignment>, x: ShiftAssignment) -> Seq<ShiftAssignment>
    decreases s.len(),
{
    if s.len() == 0 {
        seq![x]
    } else if key_le(s[0], x) {
        seq![s[0]] + insert_sorted(s.drop_first(), x)
    } else {
        seq![x] + s
    }
}

/// Stable insertion sort by (staff id, date).
pub open spec fn sort_assignments(s: Seq<ShiftAssignment>) -> Seq<ShiftAssignment>
    decreases s.len(),
{
    if s.len() == 0 {
        Seq::empty()
    } else {
        insert_sorted(sort_assignments(s.drop_last()), s.last())
    }
}

/// Every adjacent pair of the sequence is in result order.
pub open spec fn sorted_by_key(s: Seq<ShiftAssignment>) -> bool {
    forall|t: int| 0 <= t < s.len() - 1 ==> key_le(#[trigger] s[t], s[t + 1])
}

/// Well-formedness of the store's state: job ids are unique and below the
/// id counter, every stamp is below the clock and consistent, and creation
/// order agrees with `created_at`.
pub open spec fn store_state_wf(jobs: Seq<ScheduleJob>, next_job_id: u64, clock: u64) -> bool {
    &&& forall|k1: int, k2: int|
        #![trigger jobs[k1], jobs[k2]]
        0 <= k1 < k2 < jobs.len() ==> jobs[k1].id != jobs[k2].id
    &&& forall|k: int| 0 <= k < jobs.len() ==> (#[trigger] jobs[k]).id < next_job_id
    &&& forall|k: int|
        0 <= k < jobs.len() ==> (#[trigger] jobs[k]).created_at <= jobs[k].updated_at < clock
    &&& forall|k1: int, k2: int|
        #![trigger jobs[k1], jobs[k2]]
        0 <= k1 < k2 < jobs.len() ==> jobs[k1].created_at <= jobs[k2].created_at
}

/// The job store: jobs and shift assignments with counter-assigned ids and
/// a logical clock for the timestamps.
pub struct JobStore {
    jobs: Vec<ScheduleJob>,
    assignments: Vec<ShiftAssignment>,
    next_job_id: u64,
    next_assignment_id: u64,
    clock: u64,
}

impl JobStore {
    /// The stored jobs, in creation order, as the contracts see them.
    pub closed spec fn spec_jobs(&self) -> Seq<ScheduleJob> {
        self.jobs@
    }

    /// The stored assignment rows, as the contracts see them.
    pub closed spec fn spec_assignments(&self) -> Seq<ShiftAssignment> {
        self.assignments@
    }

    /// The id the next created job will carry.
    pub closed spec fn spec_next_job_id(&self) -> u64 {
        self.next_job_id
    }

    /// The id the next saved assignment row will carry.
    pub closed spec fn spec_next_assignment_id(&self) -> u64 {
        self.next_assignment_id
    }

    /// The logical clock: strictly above every stamp in the store.
    pub closed spec fn spec_clock(&self) -> u64 {
        self.clock
    }

    /// Well-formedness carried by every operation.
    pub open spec fn wf(&self) -> bool {
        store_state_wf(self.spec_jobs(), self.spec_next_job_id(), self.spec_clock())
    }

    /// Number of stored jobs.
    pub fn job_count(&self) -> (r: usize)
        ensures
            r == self.spec_jobs().len(),
    {
        self.jobs.len()
    }

    /// The stored job at position `k` (creation order).
    pub fn job_at(&self, k: usize) -> (r: ScheduleJob)
        requires
            k < self.spec_jobs().len(),
        ensures
            r == self.spec_jobs()[k as int],
    {
        self.jobs[k]
    }

    /// Current value of the logical clock.
    pub fn clock(&self) -> (r: u64)
        ensures
            r == self.spec_clock(),
    {
        self.clock
    }

    /// The id the next created job will carry.
    pub fn next_job_id(&self) -> (r: u64)
        ensures
            r == self.spec_next_job_id(),
    {
        self.next_job_id
    }

    /// The id the next saved assignment row will carry.
    pub fn next_assignment_id(&self) -> (r: u64)
        ensures
            r == self.spec_next_assignment_id(),
    {
        self.next_assignment_id
    }

    /// An empty store.
    pub fn new() -> (r: Self)
        ensures
            r.wf(),
            r.spec_jobs() == Seq::<ScheduleJob>::empty(),
            r.spec_assignments() == Seq::<ShiftAssignment>::empty(),
            r.spec_next_job_id() == 1,
            r.spec_next_assignment_id() == 1,
            r.spec_clock() == 1,
    {
        JobStore {
            jobs: Vec::new(),
            assignments: Vec::new(),
            next_job_id: 1,
            next_assignment_id: 1,
            clock: 1,
        }
    }

    /// Inserts a row with status `Pending` and returns the full record,
    /// including the store-assigned id and timestamps.
    pub fn create_job(&mut self, staff_group_id: u128, period_begin_date: i32) -> (r: ScheduleJob)
        requires
            old(self).wf(),
            old(self).spec_clock() < u64::MAX,
            old(self).spec_next_job_id() < u64::MAX,
        ensures
            final(self).wf(),
            r == (ScheduleJob {
                id: old(self).spec_next_job_id(),
                staff_group_id,
                period_begin_date,
                status: JobStatus::Pending,
                created_at: old(self).spec_clock(),
                updated_at: old(self).spec_clock(),
            }),
            final(self).spec_jobs() == old(self).spec_jobs().push(r),
            final(self).spec_assignments() == old(self).spec_assignments(),
            final(self).spec_next_job_id() == old(self).spec_next_job_id() + 1,
            final(self).spec_next_assignment_id() == old(self).spec_next_assignment_id(),
            final(self).spec_clock() == old(self).spec_clock() + 1,
    {
        let job = ScheduleJob {
            id: self.next_job_id,
            staff_group_id,
            period_begin_date,
            status: JobStatus::Pending,
            created_at: self.clock,
            updated_at: self.clock,
        };
        self.jobs.push(job);
        self.next_job_id = self.next_job_id + 1;
        self.clock = self.clock + 1;
        job
    }

    /// Returns the job carrying `id`, `None` when absent (never an error).
    pub fn find_by_id(&self, id: u64) -> (r: Option<ScheduleJob>)
        requires
            self.wf(),
        ensures
            r == find_job(self.spec_jobs(), id),
    {
        let mut k: usize = 0;
        while k < self.jobs.len()
            invariant
                self.wf(),
                k <= self.jobs@.len(),
                forall|t: int| 0 <= t < k ==> (#[trigger] self.jobs@[t]).id != id,
            decreases self.jobs@.len() - k,
        {
            if self.jobs[k].id == id {
                proof {
                    let s = self.spec_jobs();
                    assert(s[k as int].id == id);
                    assert(has_job(s, id));
                    let ki = job_index(s, id);
                    assert(0 <= ki < s.len() && s[ki].id == id);
                    if ki != k as int {
                        assert(s[ki].id != s[k as int].id);
                    }
                }
                return Some(self.jobs[k]);
            }
            k = k + 1;
        }
        proof {
            assert(!has_job(self.spec_jobs(), id));
        }
        None
    }

    /// Updates the status of the job carrying `id` and advances its
    /// `updated_at`; fails with `NotFound`, changing nothing, when no such
    /// job exists.
    pub fn update_status(&mut self, id: u64, status: JobStatus) -> (r: Result<
        (),
        SchedulingServiceError,
    >)
        requires
            old(self).wf(),
            old(self).spec_clock() < u64::MAX,
        ensures
            final(self).wf(),
            match r {
                Ok(()) => {
                    &&& has_job(old(self).spec_jobs(), id)
                    &&& final(self).spec_jobs() == old(self).spec_jobs().update(
                        job_index(old(self).spec_jobs(), id),
                        ScheduleJob {
                            status,
                            updated_at: old(self).spec_clock(),
                            ..old(self).spec_jobs()[job_index(old(self).spec_jobs(), id)]
                        },
                    )
                    &&& final(self).spec_clock() == old(self).spec_clock() + 1
                },
                Err(e) => {
                    &&& e == SchedulingServiceError::NotFound
                    &&& !has_job(old(self).spec_jobs(), id)
                    &&& final(self).spec_jobs() == old(self).spec_jobs()
                    &&& final(self).spec_clock() == old(self).spec_clock()
                },
            },
            final(self).spec_assignments() == old(self).spec_assignments(),
            final(self).spec_next_job_id() == old(self).spec_next_job_id(),
            final(self).spec_next_assignment_id() == old(self).spec_next_assignment_id(),
    {
        let n = self.jobs.len();
        let mut k: usize = 0;
        while k < n
            invariant
                self.wf(),
                self.jobs@ == old(self).jobs@,
                self.assignments@ == old(self).assignments@,
                self.next_job_id == old(self).next_job_id,
                self.next_assignment_id == old(self).next_assignment_id,
                self.clock == old(self).clock,
                self.clock < u64::MAX,
                n == self.jobs@.len(),
                k <= n,
                forall|t: int| 0 <= t < k ==> (#[trigger] self.jobs@[t]).id != id,
            decreases n - k,
        {
            if self.jobs[k].id == id {
                proof {
                    let s = self.spec_jobs();
                    assert(s[k as int].id == id);
                    assert(has_job(s, id));
                    let ki = job_index(s, id);
                    assert(0 <= ki < s.len() && s[ki].id == id);
                    if ki != k as int {
                        assert(s[ki].id != s[k as int].id);
                    }
                }
                let j = self.jobs[k];
                self.jobs[k] = ScheduleJob {
                    id: j.id,
                    staff_group_id: j.staff_group_id,
                    period_begin_date: j.period_begin_date,
                    status,
                    created_at: j.created_at,
                    updated_at: self.clock,
                };
                self.clock = self.clock + 1;
                return Ok(());
            }
            k = k + 1;
        }
        proof {
            assert(!has_job(self.spec_jobs(), id));
        }
        Err(SchedulingServiceError::NotFound)
    }

    /// Bulk insert of a generator output for `job_id`: all rows appended,
    /// with consecutive store-assigned ids, or nothing on failure (the
    /// in-memory store cannot fail).
    pub fn save_assignments(&mut self, job_id: u64, assignments: Vec<NewShiftAssignment>) -> (r:
        Result<(), SchedulingServiceError>)
        requires
            old(self).wf(),
            old(self).spec_next_assignment_id() + assignments@.len() <= u64::MAX,
        ensures
            final(self).wf(),
            r is Ok,
            final(self).spec_assignments() == old(self).spec_assignments() + attach_ids(
                assignments@,
                job_id,
                old(self).spec_next_assignment_id() as int,
            ),
            final(self).spec_jobs() == old(self).spec_jobs(),
            final(self).spec_next_job_id() == old(self).spec_next_job_id(),
            final(self).spec_next_assignment_id() == old(self).spec_next_assignment_id()
                + assignments@.len(),
            final(self).spec_clock() == old(self).spec_clock(),
    {
        let ghost old_rows = self.assignments@;
        let ghost first = self.next_assignment_id as int;
        let n = assignments.len();
        let mut k: usize = 0;
        while k < n
            invariant
                n == assignments@.len(),
                k <= n,
                self.jobs@ == old(self).jobs@,
                self.next_job_id == old(self).next_job_id,
                self.clock == old(self).clock,
                first == old(self).next_assignment_id as int,
                first + n <= u64::MAX,
                self.next_assignment_id as int == first + k,
                self.assignments@.len() == old_rows.len() + k,
                forall|t: int|
                    0 <= t < old_rows.len() ==> #[trigger] self.assignments@[t] == old_rows[t],
                forall|t: int|
                    old_rows.len() <= t < old_rows.len() + k ==> #[trigger] self.assignments@[t]
                        == (ShiftAssignment {
                        id: (first + (t - old_rows.len())) as u64,
                        job_id,
                        staff_id: assignments@[t - old_rows.len()].staff_id,
                        date: assignments@[t - old_rows.len()].date,
                        shift_type: assignments@[t - old_rows.len()].shift_type,
                    }),
            decreases n - k,
        {
            let a = assignments[k];
            self.assignments.push(ShiftAssignment {
                id: self.next_assignment_id,
                job_id,
                staff_id: a.staff_id,
                date: a.date,
                shift_type: a.shift_type,
            });
            self.next_assignment_id = self.next_assignment_id + 1;
            k = k + 1;
        }
        proof {
            assert(self.assignments@ =~= old_rows + attach_ids(assignments@, job_id, first));
        }
        Ok(())
    }

    /// All assignments of `job_id`, ordered by (staff id, date) ascending,
    /// ties kept in stored order.
    pub fn get_assignments(&self, job_id: u64) -> (r: Vec<ShiftAssignment>)
        ensures
            r@ == sort_assignments(assignments_of(self.spec_assignments(), job_id)),
    {
        let mut selected: Vec<ShiftAssignment> = Vec::new();
        let n = self.assignments.len();
        let mut k: usize = 0;
        while k < n
            invariant
                n == self.assignments@.len(),
                k <= n,
                selected@ == assignments_of(self.assignments@.subrange(0, k as int), job_id),
            decreases n - k,
        {
            proof {
                let sub1 = self.assignments@.subrange(0, k + 1);
                assert(sub1.drop_last() =~= self.assignments@.subrange(0, k as int));
                assert(sub1.last() == self.assignments@[k as int]);
            }
            if self.assignments[k].job_id == job_id {
                selected.push(self.assignments[k]);
            }
            k = k + 1;
        }
        proof {
            assert(self.assignments@.subrange(0, n as int) =~= self.assignments@);
        }
        sort_assignments_exec(selected)
    }

    /// All jobs with the given status, in creation order (`created_at`
    /// ascending): the deterministic recovery order.
    pub fn find_by_status(&self, status: JobStatus) -> (r: Vec<ScheduleJob>)
        ensures
            r@ == jobs_with_status(self.spec_jobs(), status),
    {
        let mut selected: Vec<ScheduleJob> = Vec::new();
        let n = self.jobs.len();
        let mut k: usize = 0;
        while k < n
            invariant
                n == self.jobs@.len(),
                k <= n,
                selected@ == jobs_with_status(self.jobs@.subrange(0, k as int), status),
            decreases n - k,
        {
            proof {
                let sub1 = self.jobs@.subrange(0, k + 1);
                assert(sub1.drop_last() =~= self.jobs@.subrange(0, k as int));
                assert(sub1.last() == self.jobs@[k as int]);
            }
            if self.jobs[k].status == status {
                selected.push(self.jobs[k]);
            }
            k = k + 1;
        }
        proof {
            assert(self.jobs@.subrange(0, n as int) =~= self.jobs@);
        }
        selected
    }

    /// Removes every assignment of `job_id`, keeping the rest in order;
    /// invoked before re-queueing a stale job to avoid partial state.
    pub fn delete_assignments(&mut self, job_id: u64) -> (r: Result<(), SchedulingServiceError>)
        requires
            old(self).wf(),
        ensures
            final(self).wf(),
            r is Ok,
            final(self).spec_assignments() == assignments_without(
                old(self).spec_assignments(),
                job_id,
            ),
            final(self).spec_jobs() == old(self).spec_jobs(),
            final(self).spec_next_job_id() == old(self).spec_next_job_id(),
            final(self).spec_next_assignment_id() == old(self).spec_next_assignment_id(),
            final(self).spec_clock() == old(self).spec_clock(),
    {
        let mut kept: Vec<ShiftAssignment> = Vec::new();
        let n = self.assignments.len();
        let mut k: usize = 0;
        while k < n
            invariant
                n == self.assignments@.len(),
                k <= n,
                kept@ == assignments_without(self.assignments@.subrange(0, k as int), job_id),
            decreases n - k,
        {
            proof {
                let sub1 = self.assignments@.subrange(0, k + 1);
                assert(sub1.drop_last() =~= self.assignments@.subrange(0, k as int));
                assert(sub1.last() == self.assignments@[k as int]);
            }
            if self.assignments[k].job_id != job_id {
                kept.push(self.assignments[k]);
            }
            k = k + 1;
        }
        proof {
            assert(self.assignments@.subrange(0, n as int) =~= self.assignments@);
        }
        self.assignments = kept;
        Ok(())
    }
}

/// Finds the stable insertion point: the first index whose element sorts
/// strictly after `x`.
fn find_insert_pos(out: &Vec<ShiftAssignment>, x: &ShiftAssignment) -> (idx: usize)
    ensures
        idx <= out@.len(),
        forall|t: int| 0 <= t < idx ==> key_le(#[trigger] out@[t], *x),
        idx < out@.len() ==> !key_le(out@[idx as int], *x),
{
    let mut idx: usize = 0;
    while idx < out.len()
        invariant
            idx <= out@.len(),
            forall|t: int| 0 <= t < idx ==> key_le(#[trigger] out@[t], *x),
        decreases out@.len() - idx,
    {
        let a = &out[idx];
        let le = a.staff_id < x.staff_id || (a.staff_id == x.staff_id && a.date <= x.date);
        if !le {
            return idx;
        }
        idx = idx + 1;
    }
    idx
}

/// Inserting at the stable insertion point is what `insert_sorted` does.
proof fn lemma_insert_sorted_at(s: Seq<ShiftAssignment>, x: ShiftAssignment, idx: int)
    requires
        0 <= idx <= s.len(),
        forall|t: int| 0 <= t < idx ==> key_le(#[trigger] s[t], x),
        idx < s.len() ==> !key_le(s[idx], x),
    ensures
        insert_sorted(s, x) =~= s.insert(idx, x),
    decreases s.len(),
{
    if s.len() == 0 {
    } else if idx == 0 {
        assert(insert_sorted(s, x) == seq![x] + s);
    } else {
        assert(key_le(s[0], x));
        let rest = s.drop_first();
        assert(forall|t: int| 0 <= t < idx - 1 ==> key_le(#[trigger] rest[t], x));
        lemma_insert_sorted_at(rest, x, idx - 1);
        assert(insert_sorted(s, x) == seq![s[0]] + insert_sorted(rest, x));
        assert(seq![s[0]] + rest.insert(idx - 1, x) =~= s.insert(idx, x));
    }
}

/// Inserts `x` into a run built by `insert_sorted`, keeping the spec shape.
fn insert_assignment(out: &mut Vec<ShiftAssignment>, x: ShiftAssignment)
    ensures
        final(out)@ == insert_sorted(old(out)@, x),
{
    let idx = find_insert_pos(out, &x);
    out.insert(idx, x);
    proof {
        lemma_insert_sorted_at(old(out)@, x, idx as int);
    }
}

/// Sorts assignments by (staff id, date), stably.
fn sort_assignments_exec(input: Vec<ShiftAssignment>) -> (r: Vec<ShiftAssignment>)
    ensures
        r@ == sort_assignments(input@),
{
    let mut out: Vec<ShiftAssignment> = Vec::new();
    let n = input.len();
    let mut k: usize = 0;
    while k < n
        invariant
            n == input@.len(),
            k <= n,
            out@ == sort_assignments(input@.subrange(0, k as int)),
        decreases n - k,
    {
        proof {
            let sub1 = input@.subrange(0, k + 1);
            assert(sub1.drop_last() =~= input@.subrange(0, k as int));
            assert(sub1.last() == input@[k as int]);
        }
        insert_assignment(&mut out, input[k]);
        k = k + 1;
    }
    proof {
        assert(input@.subrange(0, n as int) =~= input@);
    }
    out
}

/// There are no more jobs of one status than jobs.
pub proof fn lemma_jobs_with_status_len(jobs: Seq<ScheduleJob>, status: JobStatus)
    ensures
        jobs_with_status(jobs, status).len() <= jobs.len(),
    decreases jobs.len(),
{
    if jobs.len() > 0 {
        lemma_jobs_with_status_len(jobs.drop_last(), status);
    }
}

/// Every listed job stands in the store, with the listed status.
pub proof fn lemma_jobs_with_status_sound(jobs: Seq<ScheduleJob>, status: JobStatus)
    ensures
        forall|t: int|
            0 <= t < jobs_with_status(jobs, status).len() ==> (#[trigger] jobs_with_status(
                jobs,
                status,
            )[t]).status == status && exists|k: int|
                0 <= k < jobs.len() && jobs[k] == jobs_with_status(jobs, status)[t],
    decreases jobs.len(),
{
    if jobs.len() > 0 {
        let sub = jobs.drop_last();
        let subres = jobs_with_status(sub, status);
        let res = jobs_with_status(jobs, status);
        lemma_jobs_with_status_sound(sub, status);
        assert forall|t: int| 0 <= t < res.len() implies (#[trigger] res[t]).status == status
            && exists|k: int| 0 <= k < jobs.len() && jobs[k] == res[t] by {
            if t < subres.len() {
                assert(res[t] == subres[t]);
                let k = choose|k: int| 0 <= k < sub.len() && sub[k] == subres[t];
                assert(jobs[k] == res[t]);
            } else {
                assert(res[t] == jobs.last());
                assert(jobs[jobs.len() - 1] == res[t]);
            }
        };
    }
}

/// Every stored job of the status is listed.
pub proof fn lemma_jobs_with_status_complete(jobs: Seq<ScheduleJob>, status: JobStatus)
    ensures
        forall|k: int|
            0 <= k < jobs.len() && (#[trigger] jobs[k]).status == status ==> jobs_with_status(
                jobs,
                status,
            ).contains(jobs[k]),
    decreases jobs.len(),
{
    if jobs.len() > 0 {
        let sub = jobs.drop_last();
        let subres = jobs_with_status(sub, status);
        let res = jobs_with_status(jobs, status);
        lemma_jobs_with_status_complete(sub, status);
        assert forall|k: int|
            0 <= k < jobs.len() && (#[trigger] jobs[k]).status == status implies res.contains(
            jobs[k],
        ) by {
            if k < jobs.len() - 1 {
                assert(sub[k] == jobs[k]);
                assert(subres.contains(jobs[k]));
                let t = choose|t: int| 0 <= t < subres.len() && subres[t] == jobs[k];
                assert(res[t] == jobs[k]);
            } else {
                assert(res[res.len() - 1] == jobs.last());
            }
        };
    }
}

/// A store with no job of the status lists none.
pub proof fn lemma_jobs_with_status_empty(jobs: Seq<ScheduleJob>, status: JobStatus)
    requires
        forall|k: int| 0 <= k < jobs.len() ==> (#[trigger] jobs[k]).status != status,
    ensures
        jobs_with_status(jobs, status) == Seq::<ScheduleJob>::empty(),
    decreases jobs.len(),
{
    if jobs.len() > 0 {
        lemma_jobs_with_status_empty(jobs.drop_last(), status);
        assert(jobs_with_status(jobs, status) =~= Seq::<ScheduleJob>::empty());
    }
}

/// Two stores that agree on which rows carry the status, and on those rows,
/// list the same jobs.
pub proof fn lemma_jobs_with_status_pointwise(
    s1: Seq<ScheduleJob>,
    s2: Seq<ScheduleJob>,
    status: JobStatus,
)
    requires
        s1.len() == s2.len(),
        forall|k: int|
            0 <= k < s1.len() ==> (((#[trigger] s1[k]).status == status <==> (#[trigger] s2[k]).status
                == status) && (s1[k].status == status ==> s1[k] == s2[k])),
    ensures
        jobs_with_status(s1, status) == jobs_with_status(s2, status),
    decreases s1.len(),
{
    if s1.len() > 0 {
        lemma_jobs_with_status_pointwise(s1.drop_last(), s2.drop_last(), status);
        assert(jobs_with_status(s1, status) =~= jobs_with_status(s2, status));
    }
}

/// Deleting one job's rows removes exactly that job's rows: afterwards the
/// deleted job has none and every other job keeps its rows.
pub proof fn lemma_assignments_of_without(s: Seq<ShiftAssignment>, deleted: u64, id: u64)
    ensures
        assignments_of(assignments_without(s, deleted), id) == (if id == deleted {
            Seq::<ShiftAssignment>::empty()
        } else {
            assignments_of(s, id)
        }),
    decreases s.len(),
{
    if s.len() > 0 {
        let sub = s.drop_last();
        lemma_assignments_of_without(sub, deleted, id);
        if s.last().job_id != deleted {
            let w = assignments_without(sub, deleted) + seq![s.last()];
            assert(w.drop_last() =~= assignments_without(sub, deleted));
            assert(w.last() == s.last());
            assert(assignments_without(s, deleted) == w);
        } else {
            assert(assignments_without(s, deleted) =~= assignments_without(sub, deleted));
        }
    }
}

/// Result order is a total preorder: two rows always compare one way or the
/// other.
proof fn lemma_key_le_total(a: ShiftAssignment, b: ShiftAssignment)
    ensures
        key_le(a, b) || key_le(b, a),
{
}

/// Law: stable insertion preserves sortedness.
proof fn lemma_insert_sorted_stays_sorted(s: Seq<ShiftAssignment>, x: ShiftAssignment)
    requires
        sorted_by_key(s),
    ensures
        sorted_by_key(insert_sorted(s, x)),
    decreases s.len(),
{
    if s.len() == 0 {
    } else if key_le(s[0], x) {
        let rest = s.drop_first();
        assert(forall|t: int| 0 <= t < rest.len() - 1 ==> key_le(#[trigger] rest[t], rest[t + 1]));
        lemma_insert_sorted_stays_sorted(rest, x);
        let r = seq![s[0]] + insert_sorted(rest, x);
        assert forall|t: int| 0 <= t < r.len() - 1 implies key_le(#[trigger] r[t], r[t + 1]) by {
            if t == 0 {
                if rest.len() == 0 {
                    assert(r[1] == x);
                } else {
                    assert(insert_sorted(rest, x)[0] == rest[0] || insert_sorted(rest, x)[0] == x);
                }
            } else {
                assert(r[t] == insert_sorted(rest, x)[t - 1]);
                assert(r[t + 1] == insert_sorted(rest, x)[t]);
            }
        };
    } else {
        lemma_key_le_total(s[0], x);
        let r = seq![x] + s;
        assert forall|t: int| 0 <= t < r.len() - 1 implies key_le(#[trigger] r[t], r[t + 1]) by {
            if t == 0 {
                assert(r[1] == s[0]);
            } else {
                assert(r[t] == s[t - 1]);
                assert(r[t + 1] == s[t]);
            }
        };
    }
}

/// Law: the result of `sort_assignments` is ordered by (staff id, date).
pub proof fn lemma_sort_assignments_sorted(s: Seq<ShiftAssignment>)
    ensures
        sorted_by_key(sort_assignments(s)),
    decreases s.len(),
{
    if s.len() > 0 {
        lemma_sort_assignments_sorted(s.drop_last());
        lemma_insert_sorted_stays_sorted(sort_assignments(s.drop_last()), s.last());
    }
}

/// Stable insertion adds exactly the inserted row.
proof fn lemma_insert_sorted_multiset(s: Seq<ShiftAssignment>, x: ShiftAssignment)
    ensures
        insert_sorted(s, x).to_multiset() == s.to_multiset().insert(x),
    decreases s.len(),
{
    broadcast use vstd::seq_lib::group_seq_properties;

    if s.len() == 0 {
        assert(seq![x] =~= Seq::<ShiftAssignment>::empty().push(x));
        assert(insert_sorted(s, x).to_multiset() =~= s.to_multiset().insert(x));
    } else if key_le(s[0], x) {
        let rest = s.drop_first();
        lemma_insert_sorted_multiset(rest, x);
        vstd::seq_lib::lemma_multiset_commutative(seq![s[0]], insert_sorted(rest, x));
        vstd::seq_lib::lemma_multiset_commutative(seq![s[0]], rest);
        assert(s =~= seq![s[0]] + rest);
        assert(seq![s[0]].to_multiset().add(rest.to_multiset().insert(x)) =~= (seq![s[0]]
            + rest).to_multiset().insert(x));
        assert(insert_sorted(s, x).to_multiset() =~= s.to_multiset().insert(x));
    } else {
        vstd::seq_lib::lemma_multiset_commutative(seq![x], s);
        assert(seq![x] =~= Seq::<ShiftAssignment>::empty().push(x));
        assert(insert_sorted(s, x).to_multiset() =~= s.to_multiset().insert(x));
    }
}

/// Law: sorting loses nothing and invents nothing — the sorted run holds
/// exactly the rows of the input.
pub proof fn lemma_sort_assignments_permutes(s: Seq<ShiftAssignment>)
    ensures
        sort_assignments(s).to_multiset() == s.to_multiset(),
    decreases s.len(),
{
    broadcast use vstd::seq_lib::group_seq_properties;

    if s.len() > 0 {
        lemma_sort_assignments_permutes(s.drop_last());
        lemma_insert_sorted_multiset(sort_assignments(s.drop_last()), s.last());
        assert(s =~= s.drop_last().push(s.last()));
        assert(sort_assignments(s).to_multiset() =~= s.to_multiset());
    }
}

} // verus!
