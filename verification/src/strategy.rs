//! Scheduling strategies: which queued jobs to admit this cycle, and on which
//! resource class they run.

use vstd::prelude::*;

use crate::command::{CommandSpec, SpecCommandSpec};

verus! {

/// The most jobs the reference strategy lets run at once.
pub const MAX_JOBS: usize = 2;

/// Mathematical model of one entry of the admission queue: a job id paired
/// with the command to run for it.
pub struct SpecQueuedEntry {
    pub id: u128,
    pub command: SpecCommandSpec,
}

/// The model of an admission queue: each exec entry mapped to its model.
pub open spec fn spec_queue_of(q: Seq<(u128, CommandSpec)>) -> Seq<SpecQueuedEntry> {
    q.map_values(|e: (u128, CommandSpec)| SpecQueuedEntry { id: e.0, command: e.1@ })
}

/// Whether `ids` contains `id`.
pub fn contains_id(ids: &Vec<u128>, id: u128) -> (b: bool)
    ensures
        b == ids@.contains(id),
{
    let mut i: usize = 0;
    while i < ids.len()
        invariant
            i <= ids@.len(),
            forall|t: int| 0 <= t < i ==> ids@[t] != id,
        decreases ids@.len() - i,
    {
        if ids[i] == id {
            return true;
        }
        i = i + 1;
    }
    false
}

/// Strategy to determine what jobs to run, as well as to make any changes to
/// the commands run when the job is admitted.
///
/// `select_queued_jobs_to_run` removes the entries it selects from the queue
/// it is given and returns them, in admission order, never more than its
/// capacity leaves room for; it must preserve arrival order among the entries
/// it does not select. Each implementation pins its exact behaviour down in
/// its `select_post`.
pub trait SchedulerStrategy: Sized {
    /// Upper bound on concurrently running jobs this strategy admits up to.
    spec fn spec_capacity() -> nat;

    /// Exact description of one selection round: how the strategy state, the
    /// queue and the selected entries after the call relate to the state,
    /// queue and running set before it.
    spec fn select_post(
        pre: Self,
        post: Self,
        pre_queue: Seq<SpecQueuedEntry>,
        post_queue: Seq<SpecQueuedEntry>,
        running: Seq<u128>,
        selected: Seq<SpecQueuedEntry>,
    ) -> bool;

    /// Select queued jobs to run. The selected entries are removed from
    /// `queued_commands` and returned in admission order, with any
    /// strategy-chosen arguments appended to their commands.
    fn select_queued_jobs_to_run(
        &mut self,
        queued_commands: &mut Vec<(u128, CommandSpec)>,
        running_jobs: &Vec<u128>,
    ) -> (r: Vec<(u128, CommandSpec)>)
        ensures
            Self::select_post(
                *old(self),
                *final(self),
                spec_queue_of(old(queued_commands)@),
                spec_queue_of(final(queued_commands)@),
                running_jobs@,
                spec_queue_of(r@),
            ),
            running_jobs@.len() < Self::spec_capacity() ==> r@.len() + running_jobs@.len()
                <= Self::spec_capacity(),
            running_jobs@.len() >= Self::spec_capacity() ==> r@.len() == 0,
    ;
}

/// Scheduler strategy that only runs two jobs at max, one on the preferred
/// device (the GPU, where one exists) and one on the CPU. If no GPU is
/// available the preferred job also falls back to the CPU, chosen by the
/// transcriber itself; the strategy only decides which job is left free to
/// take the preferred device.
#[derive(Clone)]
pub struct SimpleSchedulerStrategy {
    /// The job believed to hold the preferred device slot, if any. Cleared
    /// lazily: on each selection round, a holder no longer running frees the
    /// slot.
    pub job_using_gpu: Option<u128>,
    /// History of the jobs that were granted the preferred slot, i.e. were
    /// admitted without the fallback-device flag.
    pub slot_jobs: Ghost<Set<u128>>,
}

impl Default for SimpleSchedulerStrategy {
    /// A fresh strategy: the preferred slot is free.
    fn default() -> (r: Self)
        ensures
            r.job_using_gpu is None,
            r.slot_jobs@ == Set::<u128>::empty(),
    {
        SimpleSchedulerStrategy { job_using_gpu: None, slot_jobs: Ghost(Set::empty()) }
    }
}

/// The slot holder once a lazily cleared strategy has looked at the running
/// set: the remembered holder, unless it is no longer running.
pub open spec fn spec_effective_holder(
    pre: SimpleSchedulerStrategy,
    running: Seq<u128>,
) -> Option<u128> {
    match pre.job_using_gpu {
        Some(j) => if running.contains(j) {
            Some(j)
        } else {
            None
        },
        None => None,
    }
}

/// How many more jobs may be admitted when `running_len` jobs are running.
pub open spec fn spec_spare_capacity(running_len: nat) -> nat {
    if running_len >= MAX_JOBS {
        0
    } else {
        (MAX_JOBS - running_len) as nat
    }
}

/// How many jobs one selection round admits: the queue length, capped by the
/// spare capacity.
pub open spec fn spec_selection_len(queue_len: nat, running_len: nat) -> nat {
    if queue_len < spec_spare_capacity(running_len) {
        queue_len
    } else {
        spec_spare_capacity(running_len)
    }
}

/// `c` with the fallback-device arguments appended.
pub open spec fn spec_with_fallback(c: SpecCommandSpec) -> SpecCommandSpec {
    SpecCommandSpec { program: c.program, args: c.args + seq!["--device"@, "cpu"@] }
}

/// `c` with the size-class arguments appended.
pub open spec fn spec_with_model(c: SpecCommandSpec) -> SpecCommandSpec {
    SpecCommandSpec { program: c.program, args: c.args + seq!["--model"@, "large"@] }
}

/// What becomes of queue entry `e` when it is admitted: the fallback-device
/// flag unless it takes the preferred slot, then the size-class flag.
pub open spec fn spec_selected_entry(e: SpecQueuedEntry, gets_slot: bool) -> SpecQueuedEntry {
    SpecQueuedEntry {
        id: e.id,
        command: spec_with_model(
            if gets_slot {
                e.command
            } else {
                spec_with_fallback(e.command)
            },
        ),
    }
}

impl SimpleSchedulerStrategy {
    /// Decide the resource class of one admitted job: grant it the preferred
    /// slot when that is free, otherwise force it onto the CPU.
    fn update_job(&mut self, job: (u128, CommandSpec)) -> (r: (u128, CommandSpec))
        ensures
            r.0 == job.0,
            old(self).job_using_gpu is None ==> {
                &&& final(self).job_using_gpu == Some(job.0)
                &&& final(self).slot_jobs@ == old(self).slot_jobs@.insert(job.0)
                &&& r.1@ == job.1@
            },
            old(self).job_using_gpu is Some ==> {
                &&& final(self).job_using_gpu == old(self).job_using_gpu
                &&& final(self).slot_jobs@ == old(self).slot_jobs@
                &&& r.1@ == spec_with_fallback(job.1@)
            },
    {
        let (id, mut cmd) = job;
        if self.job_using_gpu.is_none() {
            // Let the transcriber choose the default device, which is the GPU
            // where a compatible one exists, the CPU where not.
            self.job_using_gpu = Some(id);
            self.slot_jobs = Ghost(self.slot_jobs@.insert(id));
            (id, cmd)
        } else {
            // Force the job onto the CPU.
            cmd.arg(String::from_str("--device"));
            cmd.arg(String::from_str("cpu"));
            proof {
                assert(cmd@.args =~= spec_with_fallback(job.1@).args);
            }
            (id, cmd)
        }
    }
}

impl SchedulerStrategy for SimpleSchedulerStrategy {
    open spec fn spec_capacity() -> nat {
        MAX_JOBS as nat
    }

    open spec fn select_post(
        pre: Self,
        post: Self,
        pre_queue: Seq<SpecQueuedEntry>,
        post_queue: Seq<SpecQueuedEntry>,
        running: Seq<u128>,
        selected: Seq<SpecQueuedEntry>,
    ) -> bool {
        let h0 = spec_effective_holder(pre, running);
        let k = spec_selection_len(pre_queue.len(), running.len());
        &&& selected.len() == k
        &&& post_queue == pre_queue.skip(k as int)
        &&& (forall|i: int|
            0 <= i < k ==> selected[i] == spec_selected_entry(
                pre_queue[i],
                h0 is None && i == 0,
            ))
        &&& post.job_using_gpu == (if h0 is None && k >= 1 {
            Some(pre_queue[0].id)
        } else {
            h0
        })
        &&& post.slot_jobs@ == (if h0 is None && k >= 1 {
            pre.slot_jobs@.insert(pre_queue[0].id)
        } else {
            pre.slot_jobs@
        })
    }

    fn select_queued_jobs_to_run(
        &mut self,
        queued_commands: &mut Vec<(u128, CommandSpec)>,
        running_jobs: &Vec<u128>,
    ) -> (r: Vec<(u128, CommandSpec)>) {
        let ghost pre_self = *old(self);
        let ghost pre_q = spec_queue_of(old(queued_commands)@);

        // Free the slot if the job believed to hold it is no longer running.
        if let Some(j) = self.job_using_gpu {
            if !contains_id(running_jobs, j) {
                self.job_using_gpu = None;
            }
        }
        let ghost h0 = spec_effective_holder(pre_self, running_jobs@);
        assert(self.job_using_gpu == h0);
        assert(self.slot_jobs@ == pre_self.slot_jobs@);

        let mut jobs: Vec<(u128, CommandSpec)> = Vec::new();

        if running_jobs.len() >= MAX_JOBS {
            proof {
                assert(spec_queue_of(queued_commands@) =~= pre_q.skip(0));
                assert(spec_queue_of(jobs@) =~= Seq::<SpecQueuedEntry>::empty());
            }
            return jobs;
        }

        let spare = MAX_JOBS - running_jobs.len();
        let count = if queued_commands.len() < spare {
            queued_commands.len()
        } else {
            spare
        };
        assert(count == spec_selection_len(pre_q.len(), running_jobs@.len()));

        let mut i: usize = 0;
        while i < count
            invariant
                i <= count,
                count == spec_selection_len(pre_q.len(), running_jobs@.len()),
                count <= pre_q.len(),
                spec_queue_of(queued_commands@) == pre_q.skip(i as int),
                spec_queue_of(jobs@).len() == i,
                forall|t: int|
                    0 <= t < i ==> spec_queue_of(jobs@)[t] == spec_selected_entry(
                        pre_q[t],
                        h0 is None && t == 0,
                    ),
                self.job_using_gpu == (if h0 is None && i >= 1 {
                    Some(pre_q[0].id)
                } else {
                    h0
                }),
                self.slot_jobs@ == (if h0 is None && i >= 1 {
                    pre_self.slot_jobs@.insert(pre_q[0].id)
                } else {
                    pre_self.slot_jobs@
                }),
            decreases count - i,
        {
            let ghost q_before = spec_queue_of(queued_commands@);
            proof {
                assert(queued_commands@.len() == q_before.len());
                assert(q_before.len() == pre_q.len() - i);
            }
            let job = queued_commands.remove(0);
            proof {
                assert(spec_queue_of(queued_commands@) =~= q_before.skip(1));
                assert(q_before.skip(1) =~= pre_q.skip(i + 1));
                assert(q_before[0] == pre_q[i as int]);
            }
            let ghost took_slot = self.job_using_gpu is None;
            let mut job = self.update_job(job);
            // Assign a large model to the new job.
            job.1.arg(String::from_str("--model"));
            job.1.arg(String::from_str("large"));
            proof {
                assert(job.1@.args =~= (if took_slot {
                    spec_selected_entry(pre_q[i as int], true).command.args
                } else {
                    spec_selected_entry(pre_q[i as int], false).command.args
                }));
            }
            let ghost jobs_before = spec_queue_of(jobs@);
            jobs.push(job);
            proof {
                assert(spec_queue_of(jobs@) =~= jobs_before.push(
                    SpecQueuedEntry { id: job.0, command: job.1@ },
                ));
            }
            i = i + 1;
        }
        proof {
            assert(spec_queue_of(queued_commands@) == pre_q.skip(count as int));
            assert(Self::select_post(
                pre_self,
                *self,
                pre_q,
                spec_queue_of(queued_commands@),
                running_jobs@,
                spec_queue_of(jobs@),
            ));
        }
        jobs
    }
}

} // verus!
