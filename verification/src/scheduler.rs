//! The scheduler: owns the job record store, the admission queue and the
//! running table, and drives every status transition.
//!
//! Process handling itself (spawning, polling, killing) is the embedding
//! program's concern: admitted jobs are handed back as commands to spawn, and
//! process outcomes come in as [`ExitPoll`] events on the next tick.

use vstd::prelude::*;

use crate::command::CommandSpec;
use crate::job_metadata::{spec_touch, JobMetadata, SpecJobMetadata};
use crate::job_status::{JobStatus, SpecJobStatus};
use crate::render::{exit_code_reason, spec_exit_code_reason};
use crate::strategy::{
    contains_id, spec_effective_holder, spec_queue_of, spec_selected_entry, spec_selection_len,
    SchedulerStrategy, SimpleSchedulerStrategy, SpecQueuedEntry,
};

verus! {

/// One entry of the job record store: the status and metadata of one job.
#[derive(Debug, Clone, PartialEq, Eq)]
pub struct JobRecord {
    pub id: u128,
    pub status: JobStatus,
    pub metadata: JobMetadata,
}

/// Mathematical model of a [`JobRecord`].
pub struct SpecJobRecord {
    pub id: u128,
    pub status: SpecJobStatus,
    pub metadata: SpecJobMetadata,
}

impl View for JobRecord {
    type V = SpecJobRecord;

    open spec fn view(&self) -> SpecJobRecord {
        SpecJobRecord { id: self.id, status: self.status@, metadata: self.metadata@ }
    }
}

/// What one non-blocking look at a running job's process found.
#[derive(Debug, Clone, Copy, PartialEq, Eq)]
pub enum ExitPoll {
    /// The process is still running.
    StillRunning,
    /// The process has exited, with the given exit code where one was
    /// reported.
    Exited { code: Option<i32> },
    /// Whether the process has exited could not be determined. The poller is
    /// expected to attempt a forced kill; the job is marked failed regardless
    /// of the kill's outcome.
    Unknown,
}

/// Mathematical model of the whole scheduler state.
pub struct SchedulerModel {
    /// The job record store, in submission order.
    pub records: Seq<SpecJobRecord>,
    /// The ids of the running jobs, in admission order.
    pub running: Seq<u128>,
    /// The admission queue, in arrival order.
    pub queue: Seq<SpecQueuedEntry>,
    /// The job the strategy believes to hold the preferred device slot.
    pub holder: Option<u128>,
    /// The jobs that were ever admitted without the fallback-device flag.
    pub slot_jobs: Set<u128>,
}

impl SchedulerModel {
    /// Whether a job with this id was ever recorded.
    pub open spec fn known(self, id: u128) -> bool {
        exists|i: int| 0 <= i < self.records.len() && self.records[i].id == id
    }

    /// The record of the job with this id (meaningful only when `known`).
    pub open spec fn record_of(self, id: u128) -> SpecJobRecord {
        self.records[choose|i: int| 0 <= i < self.records.len() && self.records[i].id == id]
    }

    /// The status of the job with this id (meaningful only when `known`).
    pub open spec fn status_of(self, id: u128) -> SpecJobStatus {
        self.record_of(id).status
    }

    /// The metadata of the job with this id (meaningful only when `known`).
    pub open spec fn metadata_of(self, id: u128) -> SpecJobMetadata {
        self.record_of(id).metadata
    }

    /// Whether the queue holds an entry for `id`.
    pub open spec fn queue_has(self, id: u128) -> bool {
        exists|t: int| 0 <= t < self.queue.len() && (#[trigger] self.queue[t].id) == id
    }

    /// Whether the running table holds `id`.
    pub open spec fn running_has(self, id: u128) -> bool {
        exists|t: int| 0 <= t < self.running.len() && (#[trigger] self.running[t]) == id
    }

    /// Whether some record carries `id` with status `Queued`.
    pub open spec fn has_queued_record(self, id: u128) -> bool {
        exists|t: int|
            0 <= t < self.records.len() && (#[trigger] self.records[t].id) == id
                && self.records[t].status is Queued
    }

    /// Whether some record carries `id` with status `Running`.
    pub open spec fn has_running_record(self, id: u128) -> bool {
        exists|t: int|
            0 <= t < self.records.len() && (#[trigger] self.records[t].id) == id
                && self.records[t].status is Running
    }

    /// Well-formedness: ids are unique everywhere; queue and running table
    /// agree exactly with the `Queued` and `Running` statuses; timestamps
    /// never run backwards; and the slot bookkeeping matches the running set.
    pub open spec fn wf(self) -> bool {
        &&& (forall|i: int, j: int|
            0 <= i < j < self.records.len() ==> self.records[i].id != self.records[j].id)
        &&& (forall|i: int, j: int|
            0 <= i < j < self.queue.len() ==> self.queue[i].id != self.queue[j].id)
        &&& (forall|i: int, j: int|
            0 <= i < j < self.running.len() ==> self.running[i] != self.running[j])
        &&& (forall|i: int|
            0 <= i < self.queue.len() ==> self.has_queued_record(#[trigger] self.queue[i].id))
        &&& (forall|i: int|
            0 <= i < self.running.len() ==> self.has_running_record(#[trigger] self.running[i]))
        &&& (forall|i: int|
            0 <= i < self.records.len() && (#[trigger] self.records[i].status) is Queued
                ==> self.queue_has(self.records[i].id))
        &&& (forall|i: int|
            0 <= i < self.records.len() && (#[trigger] self.records[i].status) is Running
                ==> self.running_has(self.records[i].id))
        &&& (forall|i: int|
            0 <= i < self.records.len() ==> (#[trigger] self.records[i].metadata).updated_at
                >= self.records[i].metadata.created_at)
        &&& (forall|i: int|
            0 <= i < self.running.len() && self.slot_jobs.contains(#[trigger] self.running[i])
                ==> self.holder == Some(self.running[i]))
        &&& (forall|id: u128| #[trigger] self.slot_jobs.contains(id) ==> self.known(id))
        &&& (forall|i: int|
            0 <= i < self.records.len() && self.slot_jobs.contains(
                #[trigger] self.records[i].id,
            ) ==> !(self.records[i].status is Queued))
    }
}

/// The model of an empty scheduler: nothing recorded, queued or running, the
/// preferred slot free.
pub open spec fn spec_init_model() -> SchedulerModel {
    SchedulerModel {
        records: Seq::empty(),
        running: Seq::empty(),
        queue: Seq::empty(),
        holder: None,
        slot_jobs: Set::empty(),
    }
}

/// The scheduler. It owns the record store, the running table, the admission
/// queue and the strategy; every operation keeps them consistent.
pub struct Scheduler {
    pub job_records: Vec<JobRecord>,
    pub running_jobs: Vec<u128>,
    pub queued_commands: Vec<(u128, CommandSpec)>,
    pub strategy: SimpleSchedulerStrategy,
}

impl View for Scheduler {
    type V = SchedulerModel;

    open spec fn view(&self) -> SchedulerModel {
        SchedulerModel {
            records: self.job_records@.map_values(|r: JobRecord| r@),
            running: self.running_jobs@,
            queue: spec_queue_of(self.queued_commands@),
            holder: self.strategy.job_using_gpu,
            slot_jobs: self.strategy.slot_jobs@,
        }
    }
}

impl Default for Scheduler {
    /// An empty scheduler with the reference strategy.
    fn default() -> (r: Scheduler)
        ensures
            r@ == spec_init_model(),
            r@.wf(),
    {
        let r = Scheduler {
            job_records: Vec::new(),
            running_jobs: Vec::new(),
            queued_commands: Vec::new(),
            strategy: SimpleSchedulerStrategy::default(),
        };
        proof {
            assert(r@.records =~= spec_init_model().records);
            assert(r@.queue =~= spec_init_model().queue);
            assert(r@.slot_jobs =~= spec_init_model().slot_jobs);
        }
        r
    }
}

/// Relies on `uuid::Uuid::new_v4` and `Uuid::as_u128`: a freshly generated
/// random version-4 identifier as its 128-bit value. Nothing is assumed of
/// the value.
#[verifier::external_body]
fn fresh_job_id() -> u128 {
    uuid::Uuid::new_v4().as_u128()
}

/// The position of `id` in `ids`, if present: the first index holding it.
fn find_id_index(ids: &Vec<u128>, id: u128) -> (r: Option<usize>)
    ensures
        match r {
            Some(i) => i < ids@.len() && ids@[i as int] == id,
            None => !ids@.contains(id),
        },
{
    let mut i: usize = 0;
    while i < ids.len()
        invariant
            i <= ids@.len(),
            forall|t: int| 0 <= t < i ==> ids@[t] != id,
        decreases ids@.len() - i,
    {
        if ids[i] == id {
            return Some(i);
        }
        i = i + 1;
    }
    None
}

/// The position of the record of `id`, if one exists: the first index
/// holding it.
fn find_record_index(records: &Vec<JobRecord>, id: u128) -> (r: Option<usize>)
    ensures
        match r {
            Some(i) => i < records@.len() && records@[i as int].id == id,
            None => forall|t: int| 0 <= t < records@.len() ==> records@[t].id != id,
        },
{
    let mut i: usize = 0;
    while i < records.len()
        invariant
            i <= records@.len(),
            forall|t: int| 0 <= t < i ==> records@[t].id != id,
        decreases records@.len() - i,
    {
        if records[i].id == id {
            return Some(i);
        }
        i = i + 1;
    }
    None
}

/// The position of the queue entry of `id`, if one exists: the first index
/// holding it.
fn find_queue_index(queue: &Vec<(u128, CommandSpec)>, id: u128) -> (r: Option<usize>)
    ensures
        match r {
            Some(i) => i < queue@.len() && queue@[i as int].0 == id,
            None => forall|t: int| 0 <= t < queue@.len() ==> queue@[t].0 != id,
        },
{
    let mut i: usize = 0;
    while i < queue.len()
        invariant
            i <= queue@.len(),
            forall|t: int| 0 <= t < i ==> queue@[t].0 != id,
        decreases queue@.len() - i,
    {
        if queue[i].0 == id {
            return Some(i);
        }
        i = i + 1;
    }
    None
}

/// `m` after a new job is queued: a `Queued` record appended to the store and
/// the job appended to the tail of the queue.
pub open spec fn spec_queue_new_job(
    m: SchedulerModel,
    id: u128,
    command: crate::command::SpecCommandSpec,
    metadata: SpecJobMetadata,
) -> SchedulerModel {
    SchedulerModel {
        records: m.records.push(
            SpecJobRecord { id, status: SpecJobStatus::Queued, metadata },
        ),
        running: m.running,
        queue: m.queue.push(SpecQueuedEntry { id, command }),
        holder: m.holder,
        slot_jobs: m.slot_jobs,
    }
}

impl Scheduler {
    /// Queue a new job, which will be scheduled to run at a future tick. The
    /// id must be fresh — ids are random 128-bit tokens, generated once per
    /// submission — and the metadata must not have been updated before it was
    /// created.
    pub fn queue_new_job(&mut self, job: (u128, CommandSpec), metadata: JobMetadata)
        requires
            old(self)@.wf(),
            !old(self)@.known(job.0),
            metadata@.updated_at >= metadata@.created_at,
        ensures
            final(self)@ == spec_queue_new_job(old(self)@, job.0, job.1@, metadata@),
            final(self)@.wf(),
    {
        let ghost pre = self@;
        let (id, command) = job;
        self.job_records.push(JobRecord { id, status: JobStatus::Queued, metadata });
        self.queued_commands.push((id, command));
        proof {
            let post = spec_queue_new_job(pre, id, command@, metadata@);
            assert(self@.records =~= post.records);
            assert(self@.queue =~= post.queue);
            lemma_queue_new_job_preserves_wf(pre, id, command@, metadata@);
        }
    }

    /// Submit a new job: generate a fresh id, record the job as `Queued` and
    /// append it to the tail of the queue. Returns the id, or `None` in the
    /// practically impossible event that the generated random id collides
    /// with a known one, in which case nothing changes.
    pub fn submit(&mut self, command: CommandSpec, metadata: JobMetadata) -> (r: Option<u128>)
        requires
            old(self)@.wf(),
            metadata@.updated_at >= metadata@.created_at,
        ensures
            final(self)@.wf(),
            match r {
                Some(id) => !old(self)@.known(id) && final(self)@ == spec_queue_new_job(
                    old(self)@,
                    id,
                    command@,
                    metadata@,
                ),
                None => *final(self) == *old(self),
            },
    {
        let id = fresh_job_id();
        match find_record_index(&self.job_records, id) {
            Some(_) => None,
            None => {
                assert(!self@.known(id));
                self.queue_new_job((id, command), metadata);
                Some(id)
            },
        }
    }

    /// Get the status of the job with the given id. Statuses move only at
    /// ticks and direct mutations, so this is up-to-date only as of the most
    /// recent of those.
    pub fn get_job_status(&self, uuid: u128) -> (r: Option<JobStatus>)
        requires
            self@.wf(),
        ensures
            match r {
                Some(st) => self@.known(uuid) && st@ == self@.status_of(uuid),
                None => !self@.known(uuid),
            },
    {
        match find_record_index(&self.job_records, uuid) {
            Some(i) => {
                proof {
                    lemma_record_lookup(self@, uuid, i as int);
                }
                Some(self.job_records[i].status.duplicate())
            },
            None => None,
        }
    }

    /// Get the metadata of the job with the given id.
    pub fn get_job_metadata(&self, uuid: u128) -> (r: Option<JobMetadata>)
        requires
            self@.wf(),
        ensures
            match r {
                Some(m) => self@.known(uuid) && m@ == self@.metadata_of(uuid),
                None => !self@.known(uuid),
            },
    {
        match find_record_index(&self.job_records, uuid) {
            Some(i) => {
                proof {
                    lemma_record_lookup(self@, uuid, i as int);
                }
                Some(self.job_records[i].metadata.duplicate())
            },
            None => None,
        }
    }

    /// All current job statuses, in submission order.
    pub fn get_all_job_statuses(&self) -> (r: Vec<(u128, JobStatus)>)
        ensures
            r@.len() == self@.records.len(),
            forall|i: int|
                0 <= i < r@.len() ==> r@[i].0 == self@.records[i].id && r@[i].1@
                    == self@.records[i].status,
    {
        let mut out: Vec<(u128, JobStatus)> = Vec::new();
        let mut i: usize = 0;
        while i < self.job_records.len()
            invariant
                i <= self.job_records@.len(),
                out@.len() == i,
                forall|t: int|
                    0 <= t < i ==> out@[t].0 == self@.records[t].id && out@[t].1@
                        == self@.records[t].status,
            decreases self.job_records@.len() - i,
        {
            let rec = &self.job_records[i];
            out.push((rec.id, rec.status.duplicate()));
            i = i + 1;
        }
        out
    }
}

/// In a well-formed model, the record found at an index holding `id` is the
/// record of `id`.
pub proof fn lemma_record_lookup(m: SchedulerModel, id: u128, i: int)
    requires
        m.wf(),
        0 <= i < m.records.len(),
        m.records[i].id == id,
    ensures
        m.known(id),
        m.record_of(id) == m.records[i],
{
    assert(m.known(id));
    let j = choose|t: int| 0 <= t < m.records.len() && m.records[t].id == id;
    assert(m.records[j].id == id);
    if i != j {
        assert(false);
    }
}

/// Queueing a fresh job preserves well-formedness.
proof fn lemma_queue_new_job_preserves_wf(
    m: SchedulerModel,
    id: u128,
    command: crate::command::SpecCommandSpec,
    metadata: SpecJobMetadata,
)
    requires
        m.wf(),
        !m.known(id),
        metadata.updated_at >= metadata.created_at,
    ensures
        spec_queue_new_job(m, id, command, metadata).wf(),
{
    let post = spec_queue_new_job(m, id, command, metadata);
    assert forall|i: int, j: int| 0 <= i < j < post.records.len() implies post.records[i].id
        != post.records[j].id by {
        if j == post.records.len() - 1 {
            assert(post.records[i] == m.records[i]);
            assert(post.records[j].id == id);
            if m.records[i].id == id {
                assert(m.known(id));
            }
        }
    }
    assert forall|i: int, j: int| 0 <= i < j < post.queue.len() implies post.queue[i].id
        != post.queue[j].id by {
        if j == post.queue.len() - 1 {
            assert(post.queue[i] == m.queue[i]);
            assert(post.queue[j].id == id);
            assert(m.has_queued_record(m.queue[i].id));
            if m.queue[i].id == id {
                let t = choose|t: int|
                    0 <= t < m.records.len() && (#[trigger] m.records[t].id) == id
                        && m.records[t].status is Queued;
                assert(m.known(id));
            }
        }
    }
    assert forall|i: int|
        0 <= i < post.queue.len() implies post.has_queued_record(
        #[trigger] post.queue[i].id,
    ) by {
        if i < m.queue.len() {
            assert(post.queue[i] == m.queue[i]);
            assert(m.has_queued_record(m.queue[i].id));
            let t = choose|t: int|
                0 <= t < m.records.len() && (#[trigger] m.records[t].id) == m.queue[i].id
                    && m.records[t].status is Queued;
            assert(post.records[t] == m.records[t]);
        } else {
            assert(post.queue[i].id == id);
            assert(post.records[post.records.len() - 1].id == id);
        }
    }
    assert forall|i: int|
        0 <= i < post.running.len() implies post.has_running_record(
        #[trigger] post.running[i],
    ) by {
        assert(post.running[i] == m.running[i]);
        assert(m.has_running_record(m.running[i]));
        let t = choose|t: int|
            0 <= t < m.records.len() && (#[trigger] m.records[t].id) == m.running[i]
                && m.records[t].status is Running;
        assert(post.records[t] == m.records[t]);
    }
    assert forall|i: int|
        0 <= i < post.records.len() && (#[trigger] post.records[i].status) is Queued implies post.queue_has(
        post.records[i].id,
    ) by {
        if i < m.records.len() {
            assert(post.records[i] == m.records[i]);
            assert(m.records[i].status is Queued);
            assert(m.queue_has(m.records[i].id));
            let t = choose|t: int| 0 <= t < m.queue.len() && (#[trigger] m.queue[t].id) == m.records[i].id;
            assert(post.queue[t] == m.queue[t]);
        } else {
            assert(post.records[i].id == id);
            assert(post.queue[post.queue.len() - 1].id == id);
        }
    }
    assert forall|i: int|
        0 <= i < post.records.len() && (#[trigger] post.records[i].status) is Running implies post.running_has(
        post.records[i].id,
    ) by {
        assert(i < m.records.len());
        assert(post.records[i] == m.records[i]);
        assert(m.records[i].status is Running);
        assert(m.running_has(m.records[i].id));
        let t = choose|t: int| 0 <= t < m.running.len() && (#[trigger] m.running[t]) == m.records[i].id;
        assert(post.running[t] == m.running[t]);
    }
    assert forall|i: int|
        0 <= i < post.records.len() implies (#[trigger] post.records[i].metadata).updated_at
        >= post.records[i].metadata.created_at by {
        if i < m.records.len() {
            assert(post.records[i] == m.records[i]);
        }
    }
    assert forall|i: int|
        0 <= i < post.running.len() && post.slot_jobs.contains(
        #[trigger] post.running[i],
    ) implies post.holder == Some(post.running[i]) by {
        assert(post.running[i] == m.running[i]);
        assert(m.slot_jobs.contains(m.running[i]));
    }
    assert forall|id2: u128| #[trigger] post.slot_jobs.contains(id2) implies post.known(id2) by {
        assert(m.slot_jobs.contains(id2));
        assert(m.known(id2));
        let t = choose|t: int| 0 <= t < m.records.len() && m.records[t].id == id2;
        assert(post.records[t] == m.records[t]);
    }
    assert forall|i: int|
        0 <= i < post.records.len() && post.slot_jobs.contains(
        #[trigger] post.records[i].id,
    ) implies !(post.records[i].status is Queued) by {
        if i < m.records.len() {
            assert(post.records[i] == m.records[i]);
            assert(m.slot_jobs.contains(m.records[i].id));
        } else {
            assert(post.records[i].id == id);
            assert(m.slot_jobs.contains(id));
            assert(m.known(id));
            assert(false);
        }
    }
}

/// Whether this poll reports that the job's process is done with: it exited,
/// or its state could not be determined.
pub open spec fn spec_poll_terminates(p: ExitPoll) -> bool {
    !(p is StillRunning)
}

/// The terminal status a reaped job gets: `Succeeded` on exit code zero,
/// otherwise `Failed` with a reason naming the observed code, or noting that
/// the exit was never recorded.
pub open spec fn spec_classify_exit(p: ExitPoll) -> SpecJobStatus {
    match p {
        ExitPoll::StillRunning => SpecJobStatus::Running,
        ExitPoll::Exited { code } => if code == Some(0i32) {
            SpecJobStatus::Succeeded
        } else {
            SpecJobStatus::Failed { reason: Some(spec_exit_code_reason(code)) }
        },
        ExitPoll::Unknown => SpecJobStatus::Failed { reason: Some("exit status unknown"@) },
    }
}

/// The ids the report list names, in order.
pub open spec fn spec_poll_ids(polls: Seq<(u128, ExitPoll)>) -> Seq<u128> {
    polls.map_values(|e: (u128, ExitPoll)| e.0)
}

/// Whether the report list names each job at most once.
pub open spec fn spec_distinct_poll_ids(polls: Seq<(u128, ExitPoll)>) -> bool {
    forall|i: int, j: int|
        0 <= i < j < spec_poll_ids(polls).len() ==> spec_poll_ids(polls)[i] != spec_poll_ids(
            polls,
        )[j]
}

/// Whether `polls` carries a report for `id`.
pub open spec fn spec_has_poll(polls: Seq<(u128, ExitPoll)>, id: u128) -> bool {
    exists|i: int| 0 <= i < polls.len() && (#[trigger] polls[i].0) == id
}

/// The report `polls` carries for `id` (meaningful only when `spec_has_poll`
/// holds and report ids are distinct).
pub open spec fn spec_poll_of(polls: Seq<(u128, ExitPoll)>, id: u128) -> ExitPoll {
    polls[choose|i: int| 0 <= i < polls.len() && (#[trigger] polls[i].0) == id].1
}

/// Whether `polls` reports the process of `id` as done with.
pub open spec fn spec_poll_ends(polls: Seq<(u128, ExitPoll)>, id: u128) -> bool {
    spec_has_poll(polls, id) && spec_poll_terminates(spec_poll_of(polls, id))
}

/// The record store after one reap pass: every running job whose process is
/// reported done gets its terminal status and a fresh `updated_at`; every
/// other record is untouched.
pub open spec fn spec_reap_records(
    records: Seq<SpecJobRecord>,
    running: Seq<u128>,
    polls: Seq<(u128, ExitPoll)>,
    now: i64,
) -> Seq<SpecJobRecord> {
    Seq::new(
        records.len(),
        |i: int|
            {
                let r = records[i];
                if running.contains(r.id) && spec_poll_ends(polls, r.id) {
                    SpecJobRecord {
                        id: r.id,
                        status: spec_classify_exit(spec_poll_of(polls, r.id)),
                        metadata: spec_touch(r.metadata, now),
                    }
                } else {
                    r
                }
            },
    )
}

/// The running table after one reap pass: the jobs whose process is reported
/// done are removed, the rest keep their order.
pub open spec fn spec_reap_running(running: Seq<u128>, polls: Seq<(u128, ExitPoll)>) -> Seq<u128>
    decreases running.len(),
{
    if running.len() == 0 {
        Seq::empty()
    } else {
        let rest = spec_reap_running(running.drop_last(), polls);
        if spec_poll_ends(polls, running.last()) {
            rest
        } else {
            rest.push(running.last())
        }
    }
}

/// `m` after one reap pass over the given process reports.
pub open spec fn spec_reap(m: SchedulerModel, polls: Seq<(u128, ExitPoll)>, now: i64) -> SchedulerModel {
    SchedulerModel {
        records: spec_reap_records(m.records, m.running, polls, now),
        running: spec_reap_running(m.running, polls),
        queue: m.queue,
        holder: m.holder,
        slot_jobs: m.slot_jobs,
    }
}

/// What survives a reap pass: exactly the jobs not reported done, their order
/// and distinctness kept.
proof fn lemma_reap_running_props(running: Seq<u128>, polls: Seq<(u128, ExitPoll)>)
    ensures
        spec_reap_running(running, polls).len() <= running.len(),
        forall|x: u128| #[trigger]
            spec_reap_running(running, polls).contains(x) ==> running.contains(x)
                && !spec_poll_ends(polls, x),
        forall|x: u128|
            running.contains(x) && !spec_poll_ends(polls, x) ==> #[trigger] spec_reap_running(
                running,
                polls,
            ).contains(x),
        (forall|i: int, j: int| 0 <= i < j < running.len() ==> running[i] != running[j]) ==> (
        forall|i: int, j: int|
            0 <= i < j < spec_reap_running(running, polls).len() ==> spec_reap_running(
                running,
                polls,
            )[i] != spec_reap_running(running, polls)[j]),
    decreases running.len(),
{
    if running.len() == 0 {
    } else {
        let prefix = running.drop_last();
        lemma_reap_running_props(prefix, polls);
        let rest = spec_reap_running(prefix, polls);
        let whole = spec_reap_running(running, polls);
        assert forall|x: u128| #[trigger] whole.contains(x) implies running.contains(x)
            && !spec_poll_ends(polls, x) by {
            if spec_poll_ends(polls, running.last()) || x != running.last() {
                if whole.contains(x) {
                    assert(rest.contains(x));
                    assert(prefix.contains(x));
                    let t = choose|t: int| 0 <= t < prefix.len() && prefix[t] == x;
                    assert(running[t] == x);
                }
            } else {
                if !rest.contains(x) {
                    assert(running[running.len() - 1] == x);
                } else {
                    assert(prefix.contains(x));
                    let t = choose|t: int| 0 <= t < prefix.len() && prefix[t] == x;
                    assert(running[t] == x);
                }
            }
        }
        assert forall|x: u128| running.contains(x) && !spec_poll_ends(polls, x) implies #[trigger] whole.contains(
            x,
        ) by {
            let t = choose|t: int| 0 <= t < running.len() && running[t] == x;
            if t < running.len() - 1 {
                assert(prefix[t] == x);
                assert(prefix.contains(x));
                assert(rest.contains(x));
                let s = choose|s: int| 0 <= s < rest.len() && rest[s] == x;
                if !spec_poll_ends(polls, running.last()) {
                    assert(whole[s] == x);
                } else {
                    assert(whole[s] == x);
                }
            } else {
                assert(running.last() == x);
                assert(whole.last() == x);
            }
        }
        if forall|i: int, j: int| 0 <= i < j < running.len() ==> running[i] != running[j] {
            assert(forall|i: int, j: int| 0 <= i < j < prefix.len() ==> prefix[i] != prefix[j]);
            if !spec_poll_ends(polls, running.last()) {
                assert forall|i: int, j: int| 0 <= i < j < whole.len() implies whole[i]
                    != whole[j] by {
                    if j < whole.len() - 1 {
                        assert(whole[i] == rest[i] && whole[j] == rest[j]);
                    } else {
                        assert(whole[j] == running.last());
                        assert(whole[i] == rest[i]);
                        if rest[i] == running.last() {
                            assert(rest.contains(running.last()));
                            assert(prefix.contains(running.last()));
                            let t = choose|t: int| 0 <= t < prefix.len() && prefix[t] == running.last();
                            assert(running[t] == running[running.len() - 1]);
                            assert(false);
                        }
                    }
                }
            }
        }
    }
}

/// Find the report for `id` among distinct-id reports.
fn find_poll(polls: &Vec<(u128, ExitPoll)>, id: u128) -> (r: Option<ExitPoll>)
    requires
        spec_distinct_poll_ids(polls@),
    ensures
        match r {
            Some(p) => spec_has_poll(polls@, id) && p == spec_poll_of(polls@, id),
            None => !spec_has_poll(polls@, id),
        },
{
    let mut i: usize = 0;
    while i < polls.len()
        invariant
            spec_distinct_poll_ids(polls@),
            i <= polls@.len(),
            forall|t: int| 0 <= t < i ==> polls@[t].0 != id,
        decreases polls@.len() - i,
    {
        if polls[i].0 == id {
            proof {
                assert(polls@[i as int].0 == id);
                assert(spec_has_poll(polls@, id));
                let t = choose|t: int| 0 <= t < polls@.len() && (#[trigger] polls@[t].0) == id;
                assert(spec_poll_ids(polls@)[t] == id);
                assert(spec_poll_ids(polls@)[i as int] == id);
                if t != i as int {
                    assert(false);
                }
                assert forall|s: int|
                    0 <= s < polls@.len() && polls@[s].0 == id implies polls@[s].1 == polls@[i as int].1 by {
                    assert(spec_poll_ids(polls@)[s] == id);
                    assert(spec_poll_ids(polls@)[i as int] == id);
                }
                assert(spec_poll_of(polls@, id) == polls@[i as int].1);
            }
            return Some(polls[i].1);
        }
        i = i + 1;
    }
    None
}

/// The terminal status of one reaped job, rendered for the record store.
fn classify_exit(p: ExitPoll) -> (r: JobStatus)
    requires
        spec_poll_terminates(p),
    ensures
        r@ == spec_classify_exit(p),
{
    match p {
        ExitPoll::Exited { code } => match code {
            Some(c) => if c == 0 {
                JobStatus::Succeeded
            } else {
                JobStatus::Failed { reason: Some(exit_code_reason(Some(c))) }
            },
            None => JobStatus::Failed { reason: Some(exit_code_reason(None)) },
        },
        ExitPoll::Unknown => JobStatus::Failed {
            reason: Some(String::from_str("exit status unknown")),
        },
        ExitPoll::StillRunning => {
            proof {
                assert(false);
            }
            JobStatus::Running
        },
    }
}

impl Scheduler {
    /// Replace the record at `idx` with the same id, the given status, and
    /// its `updated_at` advanced to `now`.
    fn update_record(&mut self, idx: usize, status: JobStatus, now: i64)
        requires
            idx < old(self).job_records@.len(),
        ensures
            final(self).job_records@.len() == old(self).job_records@.len(),
            final(self)@.records == old(self)@.records.update(
                idx as int,
                SpecJobRecord {
                    id: old(self)@.records[idx as int].id,
                    status: status@,
                    metadata: spec_touch(old(self)@.records[idx as int].metadata, now),
                },
            ),
            final(self)@.running == old(self)@.running,
            final(self)@.queue == old(self)@.queue,
            final(self)@.holder == old(self)@.holder,
            final(self)@.slot_jobs == old(self)@.slot_jobs,
    {
        let rec = self.job_records.remove(idx);
        let mut metadata = rec.metadata;
        metadata.touch(now);
        self.job_records.insert(idx, JobRecord { id: rec.id, status, metadata });
        proof {
            assert(self.job_records@ =~= old(self).job_records@.update(
                idx as int,
                self.job_records@[idx as int],
            ));
            assert(self@.records =~= old(self)@.records.update(
                idx as int,
                SpecJobRecord {
                    id: old(self)@.records[idx as int].id,
                    status: status@,
                    metadata: spec_touch(old(self)@.records[idx as int].metadata, now),
                },
            ));
        }
    }

    /// Reap: for every running job, take the given non-blocking report on its
    /// process; remove the jobs reported done from the running table and give
    /// them their terminal status, advancing `updated_at`. A job whose report
    /// is `Unknown` is marked failed; the caller is expected to attempt a
    /// forced kill on it, and the job is failed regardless of that kill's
    /// outcome. Returns how many jobs were removed.
    ///
    /// Reports must carry distinct ids; reports on ids that are not running
    /// are ignored.
    pub fn remove_finished_jobs(&mut self, polls: &Vec<(u128, ExitPoll)>, now: i64) -> (r: usize)
        requires
            old(self)@.wf(),
            spec_distinct_poll_ids(polls@),
        ensures
            final(self)@ == spec_reap(old(self)@, polls@, now),
            final(self)@.wf(),
            r == old(self)@.running.len() - final(self)@.running.len(),
    {
        let ghost pre = self@;

        // First pass: give every reaped job its terminal status.
        let mut i: usize = 0;
        while i < self.job_records.len()
            invariant
                i <= self.job_records@.len(),
                self.job_records@.len() == pre.records.len(),
                self.running_jobs@ == pre.running,
                spec_queue_of(self.queued_commands@) == pre.queue,
                self.strategy == old(self).strategy,
                spec_distinct_poll_ids(polls@),
                forall|t: int|
                    0 <= t < i ==> self@.records[t] == spec_reap_records(
                        pre.records,
                        pre.running,
                        polls@,
                        now,
                    )[t],
                forall|t: int| i <= t < pre.records.len() ==> self@.records[t] == pre.records[t],
            decreases self.job_records@.len() - i,
        {
            let id = self.job_records[i].id;
            assert(self@.records[i as int] == pre.records[i as int]);
            assert(id == pre.records[i as int].id);
            let ghost target = spec_reap_records(pre.records, pre.running, polls@, now);
            if contains_id(&self.running_jobs, id) {
                assert(pre.running.contains(id));
                match find_poll(polls, id) {
                    Some(p) => {
                        if !matches!(p, ExitPoll::StillRunning) {
                            assert(spec_poll_ends(polls@, id));
                            let st = classify_exit(p);
                            self.update_record(i, st, now);
                            assert(self@.records[i as int] == target[i as int]);
                        } else {
                            assert(!spec_poll_ends(polls@, id));
                            assert(self@.records[i as int] == target[i as int]);
                        }
                    },
                    None => {
                        assert(!spec_poll_ends(polls@, id));
                        assert(self@.records[i as int] == target[i as int]);
                    },
                }
            } else {
                assert(!pre.running.contains(id));
                assert(self@.records[i as int] == target[i as int]);
            }
            i = i + 1;
        }

        // Second pass: drop the reaped jobs from the running table.
        let mut kept: Vec<u128> = Vec::new();
        let mut j: usize = 0;
        proof {
            assert(pre.running.take(0) =~= Seq::<u128>::empty());
        }
        while j < self.running_jobs.len()
            invariant
                j <= self.running_jobs@.len(),
                self.running_jobs@ == pre.running,
                spec_distinct_poll_ids(polls@),
                kept@ == spec_reap_running(pre.running.take(j as int), polls@),
                kept@.len() <= j,
                self.job_records@.len() == pre.records.len(),
                forall|t: int|
                    0 <= t < pre.records.len() ==> self@.records[t] == spec_reap_records(
                        pre.records,
                        pre.running,
                        polls@,
                        now,
                    )[t],
                spec_queue_of(self.queued_commands@) == pre.queue,
                self.strategy == old(self).strategy,
            decreases self.running_jobs@.len() - j,
        {
            let id = self.running_jobs[j];
            let keep = match find_poll(polls, id) {
                Some(p) => matches!(p, ExitPoll::StillRunning),
                None => true,
            };
            proof {
                assert(pre.running.take(j + 1).drop_last() =~= pre.running.take(j as int));
                assert(pre.running.take(j + 1).last() == pre.running[j as int]);
            }
            if keep {
                kept.push(id);
            }
            j = j + 1;
        }
        proof {
            assert(pre.running.take(pre.running.len() as int) =~= pre.running);
        }
        let ghost recs_before = self@.records;
        proof {
            let post = spec_reap(pre, polls@, now);
            assert forall|t: int| 0 <= t < pre.records.len() implies recs_before[t]
                == post.records[t] by {
                assert(self@.records[t] == spec_reap_records(
                    pre.records,
                    pre.running,
                    polls@,
                    now,
                )[t]);
            }
            assert(recs_before.len() == pre.records.len());
            assert(recs_before =~= post.records);
        }
        let removed = self.running_jobs.len() - kept.len();
        self.running_jobs = kept;
        proof {
            assert(self@.records == recs_before);
            lemma_reap_preserves_wf(pre, polls@, now);
        }
        removed
    }
}

/// A reap pass preserves well-formedness.
proof fn lemma_reap_preserves_wf(m: SchedulerModel, polls: Seq<(u128, ExitPoll)>, now: i64)
    requires
        m.wf(),
        spec_distinct_poll_ids(polls),
    ensures
        spec_reap(m, polls, now).wf(),
{
    let post = spec_reap(m, polls, now);
    lemma_reap_running_props(m.running, polls);
    assert(forall|i: int|
        0 <= i < post.records.len() ==> (#[trigger] post.records[i].id) == m.records[i].id);
    assert forall|i: int|
        0 <= i < post.queue.len() implies post.has_queued_record(#[trigger] post.queue[i].id) by {
        assert(m.has_queued_record(m.queue[i].id));
        let t = choose|t: int|
            0 <= t < m.records.len() && (#[trigger] m.records[t].id) == m.queue[i].id
                && m.records[t].status is Queued;
        if m.running.contains(m.records[t].id) && spec_poll_ends(polls, m.records[t].id) {
            assert(m.has_running_record(m.records[t].id));
            let s = choose|s: int|
                0 <= s < m.records.len() && (#[trigger] m.records[s].id) == m.records[t].id
                    && m.records[s].status is Running;
            assert(s != t);
            assert(false);
        }
        assert(post.records[t] == m.records[t]);
        assert(post.records[t].id == post.queue[i].id);
    }
    assert forall|i: int|
        0 <= i < post.running.len() implies post.has_running_record(
        #[trigger] post.running[i],
    ) by {
        let x = post.running[i];
        assert(post.running.contains(x));
        assert(m.running.contains(x) && !spec_poll_ends(polls, x));
        assert(m.has_running_record(x));
        let t = choose|t: int|
            0 <= t < m.records.len() && (#[trigger] m.records[t].id) == x
                && m.records[t].status is Running;
        if m.running.contains(m.records[t].id) && spec_poll_ends(polls, m.records[t].id) {
            assert(false);
        }
        assert(post.records[t] == m.records[t]);
        assert(post.records[t].id == post.running[i]);
    }
    assert forall|i: int|
        0 <= i < post.records.len() && (#[trigger] post.records[i].status) is Queued implies post.queue_has(
        post.records[i].id,
    ) by {
        if m.running.contains(m.records[i].id) && spec_poll_ends(polls, m.records[i].id) {
            assert(!(spec_classify_exit(spec_poll_of(polls, m.records[i].id)) is Queued));
            assert(false);
        }
        assert(post.records[i] == m.records[i]);
        assert(m.records[i].status is Queued);
        assert(m.queue_has(m.records[i].id));
        let t = choose|t: int| 0 <= t < m.queue.len() && (#[trigger] m.queue[t].id) == m.records[i].id;
        assert(post.queue[t].id == post.records[i].id);
    }
    assert forall|i: int|
        0 <= i < post.records.len() && (#[trigger] post.records[i].status) is Running implies post.running_has(
        post.records[i].id,
    ) by {
        if m.running.contains(m.records[i].id) && spec_poll_ends(polls, m.records[i].id) {
            assert(spec_poll_terminates(spec_poll_of(polls, m.records[i].id)));
            assert(!(spec_classify_exit(spec_poll_of(polls, m.records[i].id)) is Running));
            assert(false);
        }
        assert(post.records[i] == m.records[i]);
        assert(m.records[i].status is Running);
        assert(m.running_has(m.records[i].id));
        let t = choose|t: int| 0 <= t < m.running.len() && (#[trigger] m.running[t]) == m.records[i].id;
        assert(m.running.contains(m.records[i].id));
        assert(post.running.contains(post.records[i].id));
        let s = choose|s: int| 0 <= s < post.running.len() && post.running[s] == post.records[i].id;
        assert(post.running_has(post.records[i].id));
    }
    assert forall|i: int|
        0 <= i < post.records.len() implies (#[trigger] post.records[i].metadata).updated_at
        >= post.records[i].metadata.created_at by {
        if m.running.contains(m.records[i].id) && spec_poll_ends(polls, m.records[i].id) {
            assert(post.records[i].metadata == spec_touch(m.records[i].metadata, now));
        } else {
            assert(post.records[i] == m.records[i]);
        }
    }
    assert forall|i: int|
        0 <= i < post.running.len() && post.slot_jobs.contains(
        #[trigger] post.running[i],
    ) implies post.holder == Some(post.running[i]) by {
        let x = post.running[i];
        assert(post.running.contains(x));
        assert(m.running.contains(x));
        let t = choose|t: int| 0 <= t < m.running.len() && m.running[t] == x;
        assert(m.slot_jobs.contains(m.running[t]));
    }
    assert forall|id2: u128| #[trigger] post.slot_jobs.contains(id2) implies post.known(id2) by {
        assert(m.slot_jobs.contains(id2));
        assert(m.known(id2));
        let t = choose|t: int| 0 <= t < m.records.len() && m.records[t].id == id2;
        assert(post.records[t].id == id2);
    }
    assert forall|i: int|
        0 <= i < post.records.len() && post.slot_jobs.contains(
        #[trigger] post.records[i].id,
    ) implies !(post.records[i].status is Queued) by {
        assert(m.slot_jobs.contains(m.records[i].id));
        assert(!(m.records[i].status is Queued));
        if m.running.contains(m.records[i].id) && spec_poll_ends(polls, m.records[i].id) {
            assert(!(spec_classify_exit(spec_poll_of(polls, m.records[i].id)) is Queued));
        } else {
            assert(post.records[i] == m.records[i]);
        }
    }
}


/// The effective slot holder of `m`: the remembered holder, unless that job
/// is no longer running.
pub open spec fn spec_model_holder(m: SchedulerModel) -> Option<u128> {
    match m.holder {
        Some(j) => if m.running.contains(j) {
            Some(j)
        } else {
            None
        },
        None => None,
    }
}

/// How many jobs one admission round on `m` admits.
pub open spec fn spec_admit_len(m: SchedulerModel) -> int {
    spec_selection_len(m.queue.len(), m.running.len()) as int
}

/// The entries one admission round on `m` admits, in order, with their
/// strategy-appended arguments.
pub open spec fn spec_admitted(m: SchedulerModel) -> Seq<SpecQueuedEntry> {
    let h0 = spec_model_holder(m);
    Seq::new(
        spec_admit_len(m) as nat,
        |i: int| spec_selected_entry(m.queue[i], h0 is None && i == 0),
    )
}

/// The ids one admission round on `m` admits, in order.
pub open spec fn spec_admitted_ids(m: SchedulerModel) -> Seq<u128> {
    Seq::new(spec_admit_len(m) as nat, |i: int| m.queue[i].id)
}

/// `m` after one admission round: the admitted prefix of the queue moves to
/// the running table, its records turn `Running` with a fresh `updated_at`,
/// and the strategy hands the preferred slot to the first admitted job when
/// the slot is free.
pub open spec fn spec_admit(m: SchedulerModel, now: i64) -> SchedulerModel {
    let h0 = spec_model_holder(m);
    let k = spec_admit_len(m);
    SchedulerModel {
        records: Seq::new(
            m.records.len(),
            |i: int|
                if spec_admitted_ids(m).contains(m.records[i].id) {
                    SpecJobRecord {
                        id: m.records[i].id,
                        status: SpecJobStatus::Running,
                        metadata: spec_touch(m.records[i].metadata, now),
                    }
                } else {
                    m.records[i]
                },
        ),
        running: m.running + spec_admitted_ids(m),
        queue: m.queue.skip(k),
        holder: if h0 is None && k >= 1 {
            Some(m.queue[0].id)
        } else {
            h0
        },
        slot_jobs: if h0 is None && k >= 1 {
            m.slot_jobs.insert(m.queue[0].id)
        } else {
            m.slot_jobs
        },
    }
}

/// The index of `id` in the running table (meaningful only when present).
pub open spec fn spec_running_index_of(running: Seq<u128>, id: u128) -> int {
    choose|i: int| 0 <= i < running.len() && running[i] == id
}

/// The index of the queue entry of `id` (meaningful only when present).
pub open spec fn spec_queue_index_of(queue: Seq<SpecQueuedEntry>, id: u128) -> int {
    choose|i: int| 0 <= i < queue.len() && queue[i].id == id
}

/// The record store after the job `id` reaches terminal status `st`.
pub open spec fn spec_finish_record(
    records: Seq<SpecJobRecord>,
    id: u128,
    st: SpecJobStatus,
    now: i64,
) -> Seq<SpecJobRecord> {
    Seq::new(
        records.len(),
        |i: int|
            if records[i].id == id {
                SpecJobRecord { id, status: st, metadata: spec_touch(records[i].metadata, now) }
            } else {
                records[i]
            },
    )
}

/// `m` after a running job `id` reaches terminal status `st`: it leaves the
/// running table and its record turns terminal.
pub open spec fn spec_finish_running(
    m: SchedulerModel,
    id: u128,
    st: SpecJobStatus,
    now: i64,
) -> SchedulerModel {
    SchedulerModel {
        records: spec_finish_record(m.records, id, st, now),
        running: m.running.remove(spec_running_index_of(m.running, id)),
        queue: m.queue,
        holder: m.holder,
        slot_jobs: m.slot_jobs,
    }
}

/// `m` after a queued job `id` is canceled: it leaves the queue, the order of
/// the remaining entries kept, and its record turns `Canceled`.
pub open spec fn spec_cancel_queued(m: SchedulerModel, id: u128, now: i64) -> SchedulerModel {
    SchedulerModel {
        records: spec_finish_record(m.records, id, SpecJobStatus::Canceled, now),
        running: m.running,
        queue: m.queue.remove(spec_queue_index_of(m.queue, id)),
        holder: m.holder,
        slot_jobs: m.slot_jobs,
    }
}

/// Why a cancellation could not be carried out.
#[derive(Debug, Clone, Copy, PartialEq, Eq)]
pub enum CancelError {
    /// No job with the given id was ever recorded.
    NotFound,
}

/// What a successful cancellation did.
#[derive(Debug, Clone, Copy, PartialEq, Eq)]
pub enum CancelOutcome {
    /// The job had already finished; nothing changed.
    AlreadyFinished,
    /// The job was waiting in the queue; it was removed and marked canceled.
    CanceledQueued,
    /// The job was running; it left the running table and was marked
    /// canceled. The caller owns the process handle and must now terminate
    /// the process.
    CanceledRunning,
}

impl Scheduler {
    /// Start running queued jobs, up to the strategy's spare capacity: move
    /// the selected jobs from the queue to the running table, mark them
    /// `Running` and advance their `updated_at`. Returns the admitted jobs in
    /// admission order, with their final commands; the caller must spawn one
    /// process per entry, reporting any spawn failure back through
    /// [`Scheduler::report_spawn_failure`].
    pub fn run_queued_jobs(&mut self, now: i64) -> (r: Vec<(u128, CommandSpec)>)
        requires
            old(self)@.wf(),
        ensures
            final(self)@ == spec_admit(old(self)@, now),
            final(self)@.wf(),
            spec_queue_of(r@) == spec_admitted(old(self)@),
    {
        let ghost pre = self@;
        let jobs = self.strategy.select_queued_jobs_to_run(
            &mut self.queued_commands,
            &self.running_jobs,
        );
        let ghost post = spec_admit(pre, now);
        let ghost sel = spec_admitted(pre);
        let ghost sel_ids = spec_admitted_ids(pre);
        proof {
            assert(spec_effective_holder(
                SimpleSchedulerStrategy {
                    job_using_gpu: pre.holder,
                    slot_jobs: Ghost(pre.slot_jobs),
                },
                pre.running,
            ) == spec_model_holder(pre));
            assert(spec_queue_of(jobs@) =~= sel);
            assert(spec_queue_of(self.queued_commands@) =~= post.queue);
            assert forall|t: int| 0 <= t < sel.len() implies #[trigger] jobs@[t].0
                == sel_ids[t] by {
                assert(spec_queue_of(jobs@)[t] == sel[t]);
            }
        }
        let mut i: usize = 0;
        while i < jobs.len()
            invariant
                i <= jobs@.len(),
                pre.wf(),
                jobs@.len() == sel.len(),
                sel == spec_admitted(pre),
                sel_ids == spec_admitted_ids(pre),
                post == spec_admit(pre, now),
                sel.len() == sel_ids.len(),
                sel_ids.len() <= pre.queue.len(),
                forall|t: int| 0 <= t < sel.len() ==> #[trigger] jobs@[t].0 == sel_ids[t],
                self.job_records@.len() == pre.records.len(),
                self.running_jobs@ == pre.running + sel_ids.take(i as int),
                spec_queue_of(self.queued_commands@) == post.queue,
                self.strategy.job_using_gpu == post.holder,
                self.strategy.slot_jobs@ == post.slot_jobs,
                forall|t: int|
                    0 <= t < pre.records.len() ==> self@.records[t] == (if sel_ids.take(
                        i as int,
                    ).contains(pre.records[t].id) {
                        post.records[t]
                    } else {
                        pre.records[t]
                    }),
            decreases jobs@.len() - i,
        {
            let id = jobs[i].0;
            let ghost recs0 = self@.records;
            proof {
                assert(sel_ids[i as int] == pre.queue[i as int].id);
                assert forall|t: int| 0 <= t < pre.records.len() implies recs0[t] == (if sel_ids.take(
                    i as int,
                ).contains(pre.records[t].id) {
                    post.records[t]
                } else {
                    pre.records[t]
                }) by {
                    assert(recs0[t] == self@.records[t]);
                }
                assert(recs0.len() == pre.records.len());
            }
            self.running_jobs.push(id);
            proof {
                assert(self@.records == recs0);
                assert(self.running_jobs@ =~= pre.running + sel_ids.take(i + 1));
            }
            match find_record_index(&self.job_records, id) {
                Some(x) => {
                    proof {
                        assert(recs0[x as int].id == id);
                        assert(x < pre.records.len());
                        assert(post.records[x as int].id == pre.records[x as int].id);
                        assert(pre.records[x as int].id == id);
                        if sel_ids.take(i as int).contains(pre.records[x as int].id) {
                            let rid = pre.records[x as int].id;
                            let s = choose|s: int|
                                0 <= s < i && (#[trigger] sel_ids.take(i as int)[s]) == rid;
                            assert(sel_ids.take(i as int)[s] == sel_ids[s]);
                            assert(sel_ids[s] == spec_admitted_ids(pre)[s]);
                            assert(spec_admitted_ids(pre)[s] == pre.queue[s].id);
                            assert(spec_admitted_ids(pre)[i as int] == pre.queue[i as int].id);
                            assert(rid == id);
                            assert(pre.queue[s].id == pre.queue[i as int].id);
                            assert(false);
                        }
                        assert(recs0[x as int] == pre.records[x as int]);
                    }
                    let ghost newrec = SpecJobRecord {
                        id: pre.records[x as int].id,
                        status: SpecJobStatus::Running,
                        metadata: spec_touch(pre.records[x as int].metadata, now),
                    };
                    self.update_record(x, JobStatus::Running, now);
                    proof {
                        assert(self@.records == recs0.update(x as int, newrec));
                        assert(sel_ids.take(i + 1)[i as int] == id);
                        assert(sel_ids.take(i + 1).contains(id));
                        assert(spec_admitted_ids(pre)[i as int] == id);
                        assert(spec_admitted_ids(pre).contains(id));
                        assert(post.records[x as int] == newrec);
                        assert forall|t: int| 0 <= t < pre.records.len() implies self@.records[t]
                            == (if sel_ids.take(i + 1).contains(pre.records[t].id) {
                            post.records[t]
                        } else {
                            pre.records[t]
                        }) by {
                            if t == x as int {
                                assert(self@.records[t] == newrec);
                            } else {
                                assert(pre.records[t].id != id);
                                assert(self@.records[t] == recs0[t]);
                                if sel_ids.take(i + 1).contains(pre.records[t].id) {
                                    let rid2 = pre.records[t].id;
                                    let s = choose|s: int|
                                        0 <= s < i + 1 && (#[trigger] sel_ids.take(i + 1)[s])
                                            == rid2;
                                    assert(sel_ids.take(i + 1)[s] == sel_ids[s]);
                                    assert(s < i);
                                    assert(sel_ids.take(i as int)[s] == sel_ids[s]);
                                    assert(sel_ids.take(i as int).contains(rid2));
                                } else {
                                    if sel_ids.take(i as int).contains(pre.records[t].id) {
                                        let rid2 = pre.records[t].id;
                                        let s = choose|s: int|
                                            0 <= s < i && (#[trigger] sel_ids.take(i as int)[s])
                                                == rid2;
                                        assert(sel_ids.take(i + 1)[s] == sel_ids[s]);
                                        assert(sel_ids.take(i + 1).contains(rid2));
                                        assert(false);
                                    }
                                }
                            }
                        }
                    }
                },
                None => {
                    proof {
                        assert(pre.queue[i as int].id == id);
                        assert(pre.has_queued_record(pre.queue[i as int].id));
                        let t = choose|t: int|
                            0 <= t < pre.records.len() && (#[trigger] pre.records[t].id) == id
                                && pre.records[t].status is Queued;
                        assert(self@.records[t].id == pre.records[t].id);
                        assert(false);
                    }
                },
            }
            i = i + 1;
        }
        proof {
            assert(sel_ids.take(sel_ids.len() as int) =~= sel_ids);
            assert(self@.running =~= post.running);
            assert forall|t: int| 0 <= t < pre.records.len() implies self@.records[t]
                == post.records[t] by {
                if !spec_admitted_ids(pre).contains(pre.records[t].id) {
                    assert(post.records[t] == pre.records[t]);
                }
            }
            assert(self@.records =~= post.records);
            lemma_admit_preserves_wf(pre, now);
        }
        jobs
    }

    /// Report that spawning the process of an admitted job failed. The job
    /// leaves the running table and is marked failed, so that it still
    /// reaches a terminal, observable status. Returns whether the id was a
    /// running job.
    pub fn report_spawn_failure(&mut self, id: u128, now: i64) -> (r: bool)
        requires
            old(self)@.wf(),
        ensures
            final(self)@.wf(),
            old(self)@.running.contains(id) ==> r && final(self)@ == spec_finish_running(
                old(self)@,
                id,
                SpecJobStatus::Failed { reason: Some("spawn error"@) },
                now,
            ),
            !old(self)@.running.contains(id) ==> !r && *final(self) == *old(self),
    {
        let ghost pre = self@;
        match find_id_index(&self.running_jobs, id) {
            Some(rpos) => {
                let st = JobStatus::Failed { reason: Some(String::from_str("spawn error")) };
                self.finish_running_at(rpos, id, st, now);
                proof {
                    lemma_finish_running_preserves_wf(
                        pre,
                        id,
                        SpecJobStatus::Failed { reason: Some("spawn error"@) },
                        now,
                    );
                }
                true
            },
            None => false,
        }
    }

    /// Remove the running job at `rpos` (which must hold `id`) and give its
    /// record the terminal status `st`.
    fn finish_running_at(&mut self, rpos: usize, id: u128, st: JobStatus, now: i64)
        requires
            old(self)@.wf(),
            rpos < old(self)@.running.len(),
            old(self)@.running[rpos as int] == id,
            st@.spec_is_finished(),
        ensures
            final(self)@ == spec_finish_running(old(self)@, id, st@, now),
    {
        let ghost pre = self@;
        self.running_jobs.remove(rpos);
        proof {
            let ix = spec_running_index_of(pre.running, id);
            assert(pre.running.contains(id));
            assert(0 <= ix < pre.running.len() && pre.running[ix] == id);
            if ix != rpos as int {
                assert(pre.running[ix] != pre.running[rpos as int]);
                assert(false);
            }
        }
        match find_record_index(&self.job_records, id) {
            Some(x) => {
                self.update_record(x, st, now);
                proof {
                    assert forall|t: int| 0 <= t < pre.records.len() implies self@.records[t]
                        == spec_finish_record(pre.records, id, st@, now)[t] by {
                        if t != x as int {
                            assert(pre.records[t].id != id);
                        }
                    }
                    assert(self@.records =~= spec_finish_record(pre.records, id, st@, now));
                }
            },
            None => {
                proof {
                    assert(pre.has_running_record(pre.running[rpos as int]));
                    let t = choose|t: int|
                        0 <= t < pre.records.len() && (#[trigger] pre.records[t].id) == id
                            && pre.records[t].status is Running;
                    assert(self@.records[t].id == pre.records[t].id);
                    assert(false);
                }
            },
        }
    }

    /// Cancel a job, whether queued or running, and update its status.
    ///
    /// An unknown id fails with `NotFound`. A finished job is left untouched
    /// and the call succeeds. A queued job leaves the queue, the order of the
    /// remaining entries kept. A running job leaves the running table; on the
    /// `CanceledRunning` outcome the caller must terminate the process, whose
    /// handle it owns. Either way the job is marked `Canceled` and its
    /// `updated_at` advances.
    pub fn cancel_job(&mut self, id: u128, now: i64) -> (r: Result<CancelOutcome, CancelError>)
        requires
            old(self)@.wf(),
        ensures
            final(self)@.wf(),
            !old(self)@.known(id) ==> r == Result::<CancelOutcome, CancelError>::Err(
                CancelError::NotFound,
            ) && *final(self) == *old(self),
            old(self)@.known(id) && old(self)@.status_of(id).spec_is_finished() ==> r
                == Result::<CancelOutcome, CancelError>::Ok(CancelOutcome::AlreadyFinished)
                && *final(self) == *old(self),
            old(self)@.known(id) && old(self)@.status_of(id) is Queued ==> r
                == Result::<CancelOutcome, CancelError>::Ok(CancelOutcome::CanceledQueued)
                && final(self)@ == spec_cancel_queued(old(self)@, id, now),
            old(self)@.known(id) && old(self)@.status_of(id) is Running ==> r
                == Result::<CancelOutcome, CancelError>::Ok(CancelOutcome::CanceledRunning)
                && final(self)@ == spec_finish_running(
                old(self)@,
                id,
                SpecJobStatus::Canceled,
                now,
            ),
    {
        let ghost pre = self@;
        let rec_idx = match find_record_index(&self.job_records, id) {
            Some(x) => x,
            None => {
                return Err(CancelError::NotFound);
            },
        };
        proof {
            lemma_record_lookup(pre, id, rec_idx as int);
        }
        let finished = self.job_records[rec_idx].status.is_finished();
        if finished {
            return Ok(CancelOutcome::AlreadyFinished);
        }
        match find_id_index(&self.running_jobs, id) {
            Some(rpos) => {
                proof {
                    assert(pre.running.contains(id));
                    assert(pre.has_running_record(pre.running[rpos as int]));
                    let t = choose|t: int|
                        0 <= t < pre.records.len() && (#[trigger] pre.records[t].id) == id
                            && pre.records[t].status is Running;
                    if t != rec_idx as int {
                        assert(false);
                    }
                    assert(pre.status_of(id) is Running);
                }
                self.finish_running_at(rpos, id, JobStatus::Canceled, now);
                proof {
                    lemma_finish_running_preserves_wf(pre, id, SpecJobStatus::Canceled, now);
                }
                Ok(CancelOutcome::CanceledRunning)
            },
            None => {
                proof {
                    assert(!pre.running.contains(id));
                    if pre.status_of(id) is Running {
                        assert(pre.records[rec_idx as int].status is Running);
                        assert(pre.running_has(id));
                        let t = choose|t: int|
                            0 <= t < pre.running.len() && (#[trigger] pre.running[t]) == id;
                        assert(false);
                    }
                    assert(pre.status_of(id) is Queued);
                    assert(pre.records[rec_idx as int].status is Queued);
                    assert(pre.queue_has(id));
                }
                let qpos = match find_queue_index(&self.queued_commands, id) {
                    Some(q) => q,
                    None => {
                        proof {
                            let t = choose|t: int|
                                0 <= t < pre.queue.len() && (#[trigger] pre.queue[t].id) == id;
                            assert(spec_queue_of(self.queued_commands@)[t].id == id);
                            assert(false);
                        }
                        0
                    },
                };
                let ghost q_before = spec_queue_of(self.queued_commands@);
                self.queued_commands.remove(qpos);
                proof {
                    let ix = spec_queue_index_of(pre.queue, id);
                    assert(pre.queue[qpos as int].id == id);
                    assert(0 <= ix < pre.queue.len() && pre.queue[ix].id == id);
                    if ix != qpos as int {
                        assert(pre.queue[ix].id != pre.queue[qpos as int].id);
                        assert(false);
                    }
                    assert(spec_queue_of(self.queued_commands@) =~= q_before.remove(
                        qpos as int,
                    ));
                }
                self.update_record(rec_idx, JobStatus::Canceled, now);
                proof {
                    assert forall|t: int| 0 <= t < pre.records.len() implies self@.records[t]
                        == spec_finish_record(pre.records, id, SpecJobStatus::Canceled, now)[t] by {
                        if t != rec_idx as int {
                            assert(pre.records[t].id != id);
                        }
                    }
                    assert(self@.records =~= spec_finish_record(
                        pre.records,
                        id,
                        SpecJobStatus::Canceled,
                        now,
                    ));
                    lemma_cancel_queued_preserves_wf(pre, id, now);
                }
                Ok(CancelOutcome::CanceledQueued)
            },
        }
    }

    /// Perform one scheduler tick: first reap, removing the running jobs
    /// whose process is reported done and recording their terminal statuses;
    /// then admit, starting queued jobs up to the spare capacity. Returns how
    /// many jobs were reaped and the jobs admitted, whose processes the
    /// caller must now spawn.
    pub fn run(&mut self, polls: &Vec<(u128, ExitPoll)>, now: i64) -> (r: (
        usize,
        Vec<(u128, CommandSpec)>,
    ))
        requires
            old(self)@.wf(),
            spec_distinct_poll_ids(polls@),
        ensures
            final(self)@ == spec_admit(spec_reap(old(self)@, polls@, now), now),
            final(self)@.wf(),
            r.0 == old(self)@.running.len() - spec_reap(old(self)@, polls@, now).running.len(),
            spec_queue_of(r.1@) == spec_admitted(spec_reap(old(self)@, polls@, now)),
    {
        let reaped = self.remove_finished_jobs(polls, now);
        let admitted = self.run_queued_jobs(now);
        (reaped, admitted)
    }
}

/// One admission round preserves well-formedness.
proof fn lemma_admit_preserves_wf(m: SchedulerModel, now: i64)
    requires
        m.wf(),
    ensures
        spec_admit(m, now).wf(),
{
    let post = spec_admit(m, now);
    let h0 = spec_model_holder(m);
    let k = spec_admit_len(m);
    let ids = spec_admitted_ids(m);
    assert(forall|i: int|
        0 <= i < post.records.len() ==> (#[trigger] post.records[i].id) == m.records[i].id);
    // Admitted ids come from the queue and are never running.
    assert forall|x: u128| #[trigger] ids.contains(x) implies m.queue_has(x)
        && !m.running.contains(x) by {
        let s = choose|s: int| 0 <= s < ids.len() && ids[s] == x;
        assert(m.queue[s].id == x);
        assert(m.queue_has(x));
        if m.running.contains(x) {
            assert(m.has_queued_record(m.queue[s].id));
            let t = choose|t: int|
                0 <= t < m.records.len() && (#[trigger] m.records[t].id) == x
                    && m.records[t].status is Queued;
            let rr = choose|rr: int| 0 <= rr < m.running.len() && m.running[rr] == x;
            assert(m.has_running_record(m.running[rr]));
            let t2 = choose|t2: int|
                0 <= t2 < m.records.len() && (#[trigger] m.records[t2].id) == x
                    && m.records[t2].status is Running;
            assert(t != t2);
            assert(false);
        }
    }
    assert forall|i: int, j: int| 0 <= i < j < post.running.len() implies post.running[i]
        != post.running[j] by {
        if i < m.running.len() && j >= m.running.len() {
            assert(post.running[i] == m.running[i]);
            assert(post.running[j] == ids[j - m.running.len()]);
            assert(ids.contains(ids[j - m.running.len()]));
            if m.running[i] == ids[j - m.running.len()] {
                assert(m.running.contains(m.running[i]));
                assert(false);
            }
        } else if i >= m.running.len() {
            assert(post.running[i] == ids[i - m.running.len()]);
            assert(post.running[j] == ids[j - m.running.len()]);
            assert(m.queue[i - m.running.len()].id != m.queue[j - m.running.len()].id);
        }
    }
    assert forall|i: int, j: int| 0 <= i < j < post.queue.len() implies post.queue[i].id
        != post.queue[j].id by {
        assert(post.queue[i] == m.queue[i + k]);
        assert(post.queue[j] == m.queue[j + k]);
    }
    assert forall|i: int|
        0 <= i < post.queue.len() implies post.has_queued_record(#[trigger] post.queue[i].id) by {
        assert(post.queue[i] == m.queue[i + k]);
        assert(m.has_queued_record(m.queue[i + k].id));
        let t = choose|t: int|
            0 <= t < m.records.len() && (#[trigger] m.records[t].id) == m.queue[i + k].id
                && m.records[t].status is Queued;
        if ids.contains(m.records[t].id) {
            let s = choose|s: int| 0 <= s < ids.len() && ids[s] == m.records[t].id;
            assert(m.queue[s].id == m.queue[i + k].id);
            assert(s < k && i + k >= k);
            assert(false);
        }
        assert(post.records[t] == m.records[t]);
        assert(post.records[t].id == post.queue[i].id);
    }
    assert forall|i: int|
        0 <= i < post.running.len() implies post.has_running_record(
        #[trigger] post.running[i],
    ) by {
        if i < m.running.len() {
            assert(post.running[i] == m.running[i]);
            assert(m.has_running_record(m.running[i]));
            let t = choose|t: int|
                0 <= t < m.records.len() && (#[trigger] m.records[t].id) == m.running[i]
                    && m.records[t].status is Running;
            if ids.contains(m.records[t].id) {
                assert(!m.running.contains(m.records[t].id));
                assert(m.running.contains(m.running[i]));
                assert(false);
            }
            assert(post.records[t] == m.records[t]);
            assert(post.records[t].id == post.running[i]);
        } else {
            let x = ids[i - m.running.len()];
            assert(post.running[i] == x);
            assert(ids.contains(x));
            assert(m.queue_has(x));
            let q = choose|q: int| 0 <= q < m.queue.len() && (#[trigger] m.queue[q].id) == x;
            assert(m.has_queued_record(m.queue[q].id));
            let t = choose|t: int|
                0 <= t < m.records.len() && (#[trigger] m.records[t].id) == x
                    && m.records[t].status is Queued;
            assert(post.records[t].id == x);
            assert(post.records[t].status is Running);
        }
    }
    assert forall|i: int|
        0 <= i < post.records.len() && (#[trigger] post.records[i].status) is Queued implies post.queue_has(
        post.records[i].id,
    ) by {
        assert(!ids.contains(m.records[i].id));
        assert(post.records[i] == m.records[i]);
        assert(m.records[i].status is Queued);
        assert(m.queue_has(m.records[i].id));
        let t = choose|t: int| 0 <= t < m.queue.len() && (#[trigger] m.queue[t].id) == m.records[i].id;
        if t < k {
            assert(ids[t] == m.queue[t].id);
            assert(ids.contains(m.records[i].id));
            assert(false);
        }
        assert(post.queue[t - k].id == post.records[i].id);
    }
    assert forall|i: int|
        0 <= i < post.records.len() && (#[trigger] post.records[i].status) is Running implies post.running_has(
        post.records[i].id,
    ) by {
        if ids.contains(m.records[i].id) {
            let s = choose|s: int| 0 <= s < ids.len() && ids[s] == m.records[i].id;
            assert(post.running[m.running.len() + s] == post.records[i].id);
        } else {
            assert(post.records[i] == m.records[i]);
            assert(m.records[i].status is Running);
            assert(m.running_has(m.records[i].id));
            let t = choose|t: int|
                0 <= t < m.running.len() && (#[trigger] m.running[t]) == m.records[i].id;
            assert(post.running[t] == post.records[i].id);
        }
    }
    assert forall|i: int|
        0 <= i < post.records.len() implies (#[trigger] post.records[i].metadata).updated_at
        >= post.records[i].metadata.created_at by {
        if !ids.contains(m.records[i].id) {
            assert(post.records[i] == m.records[i]);
        }
    }
    assert forall|i: int|
        0 <= i < post.running.len() && post.slot_jobs.contains(
        #[trigger] post.running[i],
    ) implies post.holder == Some(post.running[i]) by {
        let x = post.running[i];
        if i < m.running.len() {
            assert(x == m.running[i]);
            if h0 is None && k >= 1 {
                if x == m.queue[0].id {
                    assert(ids[0] == m.queue[0].id);
                    assert(ids.contains(x));
                    assert(m.running.contains(m.running[i]));
                    assert(false);
                }
                assert(m.slot_jobs.contains(x));
                assert(m.holder == Some(x));
                match m.holder {
                    Some(j) => {
                        assert(j == x);
                        assert(m.running.contains(m.running[i]));
                        assert(false);
                    },
                    None => {
                        assert(false);
                    },
                }
            } else {
                assert(m.slot_jobs.contains(x));
                assert(m.holder == Some(x));
                match m.holder {
                    Some(j) => {
                        assert(j == x);
                        assert(m.running.contains(m.running[i]));
                        assert(post.holder == h0);
                        assert(h0 == Some(j));
                    },
                    None => {
                        assert(false);
                    },
                }
            }
        } else {
            let s = i - m.running.len();
            assert(x == ids[s]);
            assert(ids.contains(x));
            assert(m.queue_has(x));
            if h0 is None && k >= 1 {
                if x != m.queue[0].id {
                    assert(m.slot_jobs.contains(x));
                    let q = choose|q: int| 0 <= q < m.queue.len() && (#[trigger] m.queue[q].id) == x;
                    assert(m.has_queued_record(m.queue[q].id));
                    let t = choose|t: int|
                        0 <= t < m.records.len() && (#[trigger] m.records[t].id) == x
                            && m.records[t].status is Queued;
                    assert(m.slot_jobs.contains(m.records[t].id));
                    assert(false);
                }
            } else {
                assert(m.slot_jobs.contains(x));
                let q = choose|q: int| 0 <= q < m.queue.len() && (#[trigger] m.queue[q].id) == x;
                assert(m.has_queued_record(m.queue[q].id));
                let t = choose|t: int|
                    0 <= t < m.records.len() && (#[trigger] m.records[t].id) == x
                        && m.records[t].status is Queued;
                assert(m.slot_jobs.contains(m.records[t].id));
                assert(false);
            }
        }
    }
    assert forall|id2: u128| #[trigger] post.slot_jobs.contains(id2) implies post.known(id2) by {
        if h0 is None && k >= 1 && id2 == m.queue[0].id {
            assert(ids[0] == m.queue[0].id);
            assert(ids.contains(id2));
            assert(m.queue_has(id2));
            let q = choose|q: int| 0 <= q < m.queue.len() && (#[trigger] m.queue[q].id) == id2;
            assert(m.has_queued_record(m.queue[q].id));
            let t = choose|t: int|
                0 <= t < m.records.len() && (#[trigger] m.records[t].id) == id2
                    && m.records[t].status is Queued;
            assert(post.records[t].id == id2);
        } else {
            assert(m.slot_jobs.contains(id2));
            assert(m.known(id2));
            let t = choose|t: int| 0 <= t < m.records.len() && m.records[t].id == id2;
            assert(post.records[t].id == id2);
        }
    }
    assert forall|i: int|
        0 <= i < post.records.len() && post.slot_jobs.contains(
        #[trigger] post.records[i].id,
    ) implies !(post.records[i].status is Queued) by {
        if ids.contains(m.records[i].id) {
            assert(post.records[i].status is Running);
        } else {
            assert(post.records[i] == m.records[i]);
            if h0 is None && k >= 1 && m.records[i].id == m.queue[0].id {
                assert(ids[0] == m.queue[0].id);
                assert(ids.contains(m.records[i].id));
                assert(false);
            }
            assert(m.slot_jobs.contains(m.records[i].id));
        }
    }
}

/// Finishing one running job preserves well-formedness.
proof fn lemma_finish_running_preserves_wf(m: SchedulerModel, id: u128, st: SpecJobStatus, now: i64)
    requires
        m.wf(),
        m.running.contains(id),
        st.spec_is_finished(),
    ensures
        spec_finish_running(m, id, st, now).wf(),
{
    let post = spec_finish_running(m, id, st, now);
    let ix = spec_running_index_of(m.running, id);
    assert(0 <= ix < m.running.len() && m.running[ix] == id);
    assert(post.running =~= m.running.subrange(0, ix) + m.running.subrange(
        ix + 1,
        m.running.len() as int,
    ));
    assert(forall|i: int|
        0 <= i < post.records.len() ==> (#[trigger] post.records[i].id) == m.records[i].id);
    assert forall|i: int|
        0 <= i < post.running.len() implies #[trigger] post.running[i] != id && m.running.contains(
        post.running[i],
    ) by {
        if i < ix {
            assert(post.running[i] == m.running[i]);
        } else {
            assert(post.running[i] == m.running[i + 1]);
        }
    }
    assert forall|i: int, j: int| 0 <= i < j < post.running.len() implies post.running[i]
        != post.running[j] by {
        let i2 = if i < ix { i } else { i + 1 };
        let j2 = if j < ix { j } else { j + 1 };
        assert(post.running[i] == m.running[i2]);
        assert(post.running[j] == m.running[j2]);
    }
    assert forall|i: int|
        0 <= i < post.queue.len() implies post.has_queued_record(#[trigger] post.queue[i].id) by {
        assert(m.has_queued_record(m.queue[i].id));
        let t = choose|t: int|
            0 <= t < m.records.len() && (#[trigger] m.records[t].id) == m.queue[i].id
                && m.records[t].status is Queued;
        if m.records[t].id == id {
            assert(m.has_running_record(m.running[ix]));
            let t2 = choose|t2: int|
                0 <= t2 < m.records.len() && (#[trigger] m.records[t2].id) == id
                    && m.records[t2].status is Running;
            assert(t != t2);
            assert(false);
        }
        assert(post.records[t] == m.records[t]);
        assert(post.records[t].id == post.queue[i].id);
    }
    assert forall|i: int|
        0 <= i < post.running.len() implies post.has_running_record(
        #[trigger] post.running[i],
    ) by {
        let x = post.running[i];
        assert(m.running.contains(x));
        assert(x != id);
        let r = choose|r: int| 0 <= r < m.running.len() && m.running[r] == x;
        assert(m.has_running_record(m.running[r]));
        let t = choose|t: int|
            0 <= t < m.records.len() && (#[trigger] m.records[t].id) == x
                && m.records[t].status is Running;
        assert(post.records[t] == m.records[t]);
        assert(post.records[t].id == x);
    }
    assert forall|i: int|
        0 <= i < post.records.len() && (#[trigger] post.records[i].status) is Queued implies post.queue_has(
        post.records[i].id,
    ) by {
        assert(!(st is Queued));
        assert(post.records[i] == m.records[i]);
        assert(m.records[i].status is Queued);
        assert(m.queue_has(m.records[i].id));
        let t = choose|t: int| 0 <= t < m.queue.len() && (#[trigger] m.queue[t].id) == m.records[i].id;
        assert(post.queue[t].id == post.records[i].id);
    }
    assert forall|i: int|
        0 <= i < post.records.len() && (#[trigger] post.records[i].status) is Running implies post.running_has(
        post.records[i].id,
    ) by {
        assert(!(st is Running));
        assert(post.records[i] == m.records[i]);
        assert(m.records[i].status is Running);
        assert(m.records[i].id != id);
        assert(m.running_has(m.records[i].id));
        let t = choose|t: int| 0 <= t < m.running.len() && (#[trigger] m.running[t]) == m.records[i].id;
        let t2 = if t < ix { t } else { t - 1 };
        assert(t != ix);
        assert(post.running[t2] == m.running[t]);
        assert(post.running[t2] == post.records[i].id);
    }
    assert forall|i: int|
        0 <= i < post.records.len() implies (#[trigger] post.records[i].metadata).updated_at
        >= post.records[i].metadata.created_at by {
        if m.records[i].id != id {
            assert(post.records[i] == m.records[i]);
        }
    }
    assert forall|i: int|
        0 <= i < post.running.len() && post.slot_jobs.contains(
        #[trigger] post.running[i],
    ) implies post.holder == Some(post.running[i]) by {
        let x = post.running[i];
        assert(m.running.contains(x));
        let r = choose|r: int| 0 <= r < m.running.len() && m.running[r] == x;
        assert(m.slot_jobs.contains(m.running[r]));
    }
    assert forall|id2: u128| #[trigger] post.slot_jobs.contains(id2) implies post.known(id2) by {
        assert(m.slot_jobs.contains(id2));
        assert(m.known(id2));
        let t = choose|t: int| 0 <= t < m.records.len() && m.records[t].id == id2;
        assert(post.records[t].id == id2);
    }
    assert forall|i: int|
        0 <= i < post.records.len() && post.slot_jobs.contains(
        #[trigger] post.records[i].id,
    ) implies !(post.records[i].status is Queued) by {
        if m.records[i].id == id {
            assert(!(st is Queued));
        } else {
            assert(post.records[i] == m.records[i]);
            assert(m.slot_jobs.contains(m.records[i].id));
        }
    }
}

/// Canceling one queued job preserves well-formedness.
proof fn lemma_cancel_queued_preserves_wf(m: SchedulerModel, id: u128, now: i64)
    requires
        m.wf(),
        m.queue_has(id),
        m.known(id),
        m.status_of(id) is Queued,
    ensures
        spec_cancel_queued(m, id, now).wf(),
{
    let post = spec_cancel_queued(m, id, now);
    let ix = spec_queue_index_of(m.queue, id);
    assert(exists|i: int| 0 <= i < m.queue.len() && (#[trigger] m.queue[i]).id == id);
    assert(0 <= ix < m.queue.len() && m.queue[ix].id == id);
    assert(post.queue =~= m.queue.subrange(0, ix) + m.queue.subrange(
        ix + 1,
        m.queue.len() as int,
    ));
    assert(forall|i: int|
        0 <= i < post.records.len() ==> (#[trigger] post.records[i].id) == m.records[i].id);
    assert forall|i: int|
        0 <= i < post.queue.len() implies #[trigger] post.queue[i].id != id && (exists|t: int|
        0 <= t < m.queue.len() && (#[trigger] m.queue[t]) == post.queue[i]) by {
        if i < ix {
            assert(m.queue[i] == post.queue[i]);
        } else {
            assert(m.queue[i + 1] == post.queue[i]);
        }
    }
    assert forall|i: int, j: int| 0 <= i < j < post.queue.len() implies post.queue[i].id
        != post.queue[j].id by {
        let i2 = if i < ix { i } else { i + 1 };
        let j2 = if j < ix { j } else { j + 1 };
        assert(post.queue[i] == m.queue[i2]);
        assert(post.queue[j] == m.queue[j2]);
    }
    assert forall|i: int|
        0 <= i < post.queue.len() implies post.has_queued_record(#[trigger] post.queue[i].id) by {
        let t0 = choose|t0: int| 0 <= t0 < m.queue.len() && (#[trigger] m.queue[t0]) == post.queue[i];
        assert(m.has_queued_record(m.queue[t0].id));
        let t = choose|t: int|
            0 <= t < m.records.len() && (#[trigger] m.records[t].id) == m.queue[t0].id
                && m.records[t].status is Queued;
        assert(m.records[t].id != id);
        assert(post.records[t] == m.records[t]);
        assert(post.records[t].id == post.queue[i].id);
    }
    assert forall|i: int|
        0 <= i < post.running.len() implies post.has_running_record(
        #[trigger] post.running[i],
    ) by {
        assert(m.has_running_record(m.running[i]));
        let t = choose|t: int|
            0 <= t < m.records.len() && (#[trigger] m.records[t].id) == m.running[i]
                && m.records[t].status is Running;
        if m.records[t].id == id {
            lemma_record_lookup(m, id, t);
            assert(false);
        }
        assert(post.records[t] == m.records[t]);
        assert(post.records[t].id == post.running[i]);
    }
    assert forall|i: int|
        0 <= i < post.records.len() && (#[trigger] post.records[i].status) is Queued implies post.queue_has(
        post.records[i].id,
    ) by {
        assert(post.records[i] == m.records[i]);
        assert(m.records[i].status is Queued);
        assert(m.queue_has(m.records[i].id));
        let t = choose|t: int| 0 <= t < m.queue.len() && (#[trigger] m.queue[t].id) == m.records[i].id;
        assert(m.records[i].id != id);
        assert(t != ix);
        let t2 = if t < ix { t } else { t - 1 };
        assert(post.queue[t2] == m.queue[t]);
        assert(post.queue[t2].id == post.records[i].id);
    }
    assert forall|i: int|
        0 <= i < post.records.len() && (#[trigger] post.records[i].status) is Running implies post.running_has(
        post.records[i].id,
    ) by {
        assert(post.records[i] == m.records[i]);
        assert(m.records[i].status is Running);
        assert(m.running_has(m.records[i].id));
        let t = choose|t: int| 0 <= t < m.running.len() && (#[trigger] m.running[t]) == m.records[i].id;
        assert(post.running[t] == post.records[i].id);
    }
    assert forall|i: int|
        0 <= i < post.records.len() implies (#[trigger] post.records[i].metadata).updated_at
        >= post.records[i].metadata.created_at by {
        if m.records[i].id != id {
            assert(post.records[i] == m.records[i]);
        }
    }
    assert forall|i: int|
        0 <= i < post.running.len() && post.slot_jobs.contains(
        #[trigger] post.running[i],
    ) implies post.holder == Some(post.running[i]) by {
        assert(m.slot_jobs.contains(m.running[i]));
    }
    assert forall|id2: u128| #[trigger] post.slot_jobs.contains(id2) implies post.known(id2) by {
        assert(m.slot_jobs.contains(id2));
        assert(m.known(id2));
        let t = choose|t: int| 0 <= t < m.records.len() && m.records[t].id == id2;
        assert(post.records[t].id == id2);
    }
    assert forall|i: int|
        0 <= i < post.records.len() && post.slot_jobs.contains(
        #[trigger] post.records[i].id,
    ) implies !(post.records[i].status is Queued) by {
        if m.records[i].id == id {
            assert(m.slot_jobs.contains(m.records[i].id));
            assert(!(m.records[i].status is Queued));
            lemma_record_lookup(m, id, i);
            assert(false);
        } else {
            assert(post.records[i] == m.records[i]);
            assert(m.slot_jobs.contains(m.records[i].id));
        }
    }
}


} // verus!
