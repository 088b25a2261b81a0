//! The laws of the scheduler, each proved once and for all over the model:
//! what submission, ticking and cancellation guarantee across operations.

use vstd::prelude::*;

use crate::command::SpecCommandSpec;
use crate::job_metadata::SpecJobMetadata;
use crate::job_status::SpecJobStatus;
use crate::scheduler::{
    lemma_record_lookup, spec_admit, spec_admit_len, spec_admitted, spec_admitted_ids,
    spec_cancel_queued, spec_finish_running, spec_model_holder, spec_poll_terminates,
    spec_has_poll, spec_poll_ends, spec_poll_of, spec_queue_new_job, spec_reap,
    spec_reap_running, ExitPoll, SchedulerModel, SpecJobRecord,
};
use crate::strategy::{spec_selected_entry, spec_selection_len, MAX_JOBS};

verus! {

/// No operation invents a job: reaping, admission and the two finishing
/// operations keep the set of known ids exactly, and queueing a new job adds
/// exactly its id. An id never submitted therefore stays unknown, and
/// `status`, `metadata` and `cancel` keep answering `NotFound` for it.
pub proof fn lemma_operations_add_no_ids(
    m: SchedulerModel,
    id: u128,
    other: u128,
    command: SpecCommandSpec,
    metadata: SpecJobMetadata,
    polls: Seq<(u128, ExitPoll)>,
    st: SpecJobStatus,
    now: i64,
)
    ensures
        spec_reap(m, polls, now).known(other) == m.known(other),
        spec_admit(m, now).known(other) == m.known(other),
        spec_finish_running(m, id, st, now).known(other) == m.known(other),
        spec_cancel_queued(m, id, now).known(other) == m.known(other),
        spec_queue_new_job(m, id, command, metadata).known(other) == (m.known(other) || other
            == id),
{
    let reaped = spec_reap(m, polls, now);
    assert(forall|i: int|
        0 <= i < reaped.records.len() ==> (#[trigger] reaped.records[i].id) == m.records[i].id);
    assert(reaped.known(other) == m.known(other)) by {
        if m.known(other) {
            let t = choose|t: int| 0 <= t < m.records.len() && m.records[t].id == other;
            assert(reaped.records[t].id == other);
        }
        if reaped.known(other) {
            let t = choose|t: int| 0 <= t < reaped.records.len() && reaped.records[t].id == other;
            assert(m.records[t].id == other);
        }
    }
    let admitted = spec_admit(m, now);
    assert(forall|i: int|
        0 <= i < admitted.records.len() ==> (#[trigger] admitted.records[i].id)
            == m.records[i].id);
    assert(admitted.known(other) == m.known(other)) by {
        if m.known(other) {
            let t = choose|t: int| 0 <= t < m.records.len() && m.records[t].id == other;
            assert(admitted.records[t].id == other);
        }
        if admitted.known(other) {
            let t = choose|t: int|
                0 <= t < admitted.records.len() && admitted.records[t].id == other;
            assert(m.records[t].id == other);
        }
    }
    let finished = spec_finish_running(m, id, st, now);
    assert(forall|i: int|
        0 <= i < finished.records.len() ==> (#[trigger] finished.records[i].id)
            == m.records[i].id);
    assert(finished.known(other) == m.known(other)) by {
        if m.known(other) {
            let t = choose|t: int| 0 <= t < m.records.len() && m.records[t].id == other;
            assert(finished.records[t].id == other);
        }
        if finished.known(other) {
            let t = choose|t: int|
                0 <= t < finished.records.len() && finished.records[t].id == other;
            assert(m.records[t].id == other);
        }
    }
    let canceled = spec_cancel_queued(m, id, now);
    assert(forall|i: int|
        0 <= i < canceled.records.len() ==> (#[trigger] canceled.records[i].id)
            == m.records[i].id);
    assert(canceled.known(other) == m.known(other)) by {
        if m.known(other) {
            let t = choose|t: int| 0 <= t < m.records.len() && m.records[t].id == other;
            assert(canceled.records[t].id == other);
        }
        if canceled.known(other) {
            let t = choose|t: int|
                0 <= t < canceled.records.len() && canceled.records[t].id == other;
            assert(m.records[t].id == other);
        }
    }
    let queued = spec_queue_new_job(m, id, command, metadata);
    assert(queued.known(other) == (m.known(other) || other == id)) by {
        if m.known(other) {
            let t = choose|t: int| 0 <= t < m.records.len() && m.records[t].id == other;
            assert(queued.records[t].id == other);
        }
        if other == id {
            assert(queued.records[queued.records.len() - 1].id == other);
        }
        if queued.known(other) {
            let t = choose|t: int| 0 <= t < queued.records.len() && queued.records[t].id == other;
            if t < m.records.len() {
                assert(m.records[t].id == other);
            }
        }
    }
}

/// Immediately after submission the new job's status is exactly `Queued` and
/// its metadata is exactly the metadata handed in — in particular, metadata
/// fresh from initialization has `created_at == updated_at`.
pub proof fn lemma_submitted_job_is_queued(
    m: SchedulerModel,
    id: u128,
    command: SpecCommandSpec,
    metadata: SpecJobMetadata,
)
    requires
        m.wf(),
        !m.known(id),
    ensures
        spec_queue_new_job(m, id, command, metadata).known(id),
        spec_queue_new_job(m, id, command, metadata).status_of(id) == SpecJobStatus::Queued,
        spec_queue_new_job(m, id, command, metadata).metadata_of(id) == metadata,
{
    let post = spec_queue_new_job(m, id, command, metadata);
    let n = post.records.len() - 1;
    assert(post.records[n].id == id);
    assert(post.known(id));
    let t = choose|t: int| 0 <= t < post.records.len() && post.records[t].id == id;
    if t < n {
        assert(m.records[t].id == id);
        assert(m.known(id));
        assert(false);
    }
    assert(post.record_of(id) == post.records[n]);
}

/// One admission round never admits more jobs than the spare capacity: with
/// capacity 2, a tick that finds no running job admits at most two, one
/// running job at most one, two running jobs none.
pub proof fn lemma_admission_bounded(m: SchedulerModel)
    ensures
        spec_admitted(m).len() == spec_selection_len(m.queue.len(), m.running.len()),
        spec_admitted(m).len() + m.running.len() <= MAX_JOBS || m.running.len() >= MAX_JOBS,
        m.running.len() >= MAX_JOBS ==> spec_admitted(m).len() == 0,
{
}

/// At most one currently-running job was admitted without the
/// fallback-resource flag: any two running jobs that ever took the preferred
/// slot are the same job, and it is the remembered holder.
pub proof fn lemma_at_most_one_unflagged(m: SchedulerModel, a: u128, b: u128)
    requires
        m.wf(),
        m.running.contains(a),
        m.running.contains(b),
        m.slot_jobs.contains(a),
        m.slot_jobs.contains(b),
    ensures
        a == b,
        m.holder == Some(a),
{
    let i = choose|i: int| 0 <= i < m.running.len() && m.running[i] == a;
    assert(m.slot_jobs.contains(m.running[i]));
    let j = choose|j: int| 0 <= j < m.running.len() && m.running[j] == b;
    assert(m.slot_jobs.contains(m.running[j]));
}

/// When the job that held the preferred slot has stopped running, the slot
/// is free for the next admission round: the first job admitted takes the
/// slot and carries no fallback flag, and the strategy remembers it.
pub proof fn lemma_slot_freed(m: SchedulerModel, now: i64)
    requires
        spec_model_holder(m) is None,
        spec_admitted(m).len() >= 1,
    ensures
        spec_admitted(m)[0] == spec_selected_entry(m.queue[0], true),
        spec_admit(m, now).holder == Some(m.queue[0].id),
        spec_admit(m, now).slot_jobs == m.slot_jobs.insert(m.queue[0].id),
{
}

/// Admission follows arrival: the jobs one round admits are exactly the
/// first entries of the queue, in arrival order, and the entries left behind
/// keep their arrival order. Jobs never canceled are therefore admitted in
/// the order they arrived.
pub proof fn lemma_admission_follows_arrival(m: SchedulerModel, now: i64)
    ensures
        forall|i: int|
            0 <= i < spec_admitted(m).len() ==> (#[trigger] spec_admitted(m)[i].id)
                == m.queue[i].id,
        spec_admit(m, now).queue == m.queue.skip(spec_admit_len(m)),
        forall|i: int|
            0 <= i < spec_admit(m, now).queue.len() ==> (#[trigger] spec_admit(
                m,
                now,
            ).queue[i]) == m.queue[i + spec_admit_len(m)],
{
}

/// A job whose status is not `Queued` — in particular a canceled one — is
/// never admitted by any admission round on a well-formed state.
pub proof fn lemma_canceled_never_admitted(m: SchedulerModel, id: u128)
    requires
        m.wf(),
        m.known(id),
        !(m.status_of(id) is Queued),
    ensures
        !spec_admitted_ids(m).contains(id),
{
    if spec_admitted_ids(m).contains(id) {
        let s = choose|s: int|
            0 <= s < spec_admitted_ids(m).len() && spec_admitted_ids(m)[s] == id;
        assert(m.queue[s].id == id);
        assert(m.has_queued_record(m.queue[s].id));
        let t = choose|t: int|
            0 <= t < m.records.len() && (#[trigger] m.records[t].id) == id
                && m.records[t].status is Queued;
        lemma_record_lookup(m, id, t);
        assert(false);
    }
}

/// No operation revives a finished job: once a status is terminal, reaping,
/// admission, finishing another running job and canceling another queued job
/// all leave it exactly as it is.
pub proof fn lemma_terminal_status_stays(
    m: SchedulerModel,
    id: u128,
    other: u128,
    polls: Seq<(u128, ExitPoll)>,
    st: SpecJobStatus,
    now: i64,
)
    requires
        m.wf(),
        m.known(id),
        m.status_of(id).spec_is_finished(),
    ensures
        spec_reap(m, polls, now).known(id) && spec_reap(m, polls, now).status_of(id)
            == m.status_of(id),
        spec_admit(m, now).known(id) && spec_admit(m, now).status_of(id) == m.status_of(id),
        m.running.contains(other) && other != id ==> spec_finish_running(
            m,
            other,
            st,
            now,
        ).known(id) && spec_finish_running(m, other, st, now).status_of(id) == m.status_of(id),
        other != id ==> spec_cancel_queued(m, other, now).known(id) && spec_cancel_queued(
            m,
            other,
            now,
        ).status_of(id) == m.status_of(id),
{
    let t = choose|t: int| 0 <= t < m.records.len() && m.records[t].id == id;
    lemma_record_lookup(m, id, t);
    assert(m.records[t].status.spec_is_finished());
    if m.running.contains(id) {
        let r = choose|r: int| 0 <= r < m.running.len() && m.running[r] == id;
        assert(m.has_running_record(m.running[r]));
        let t2 = choose|t2: int|
            0 <= t2 < m.records.len() && (#[trigger] m.records[t2].id) == id
                && m.records[t2].status is Running;
        lemma_record_lookup(m, id, t2);
        assert(false);
    }
    let reaped = spec_reap(m, polls, now);
    assert(reaped.records[t] == m.records[t]);
    lemma_lookup_among_same_ids(m, reaped.records, id, t);
    let admitted = spec_admit(m, now);
    lemma_canceled_never_admitted(m, id);
    assert(admitted.records[t] == m.records[t]);
    lemma_lookup_among_same_ids(m, admitted.records, id, t);
    if m.running.contains(other) && other != id {
        let fin = spec_finish_running(m, other, st, now);
        assert(fin.records[t] == m.records[t]);
        lemma_lookup_among_same_ids(m, fin.records, id, t);
    }
    if other != id {
        let can = spec_cancel_queued(m, other, now);
        assert(can.records[t] == m.records[t]);
        lemma_lookup_among_same_ids(m, can.records, id, t);
    }
}

/// In a record store whose ids agree position by position with a well-formed
/// model's, the record of `id` sits at the same index as in the model.
proof fn lemma_lookup_among_same_ids(
    m: SchedulerModel,
    records: Seq<SpecJobRecord>,
    id: u128,
    t: int,
)
    requires
        m.wf(),
        records.len() == m.records.len(),
        forall|i: int| 0 <= i < records.len() ==> (#[trigger] records[i].id) == m.records[i].id,
        0 <= t < records.len(),
        m.records[t].id == id,
    ensures
        (SchedulerModel { records, ..m }).known(id),
        (SchedulerModel { records, ..m }).record_of(id) == records[t],
{
    let p = SchedulerModel { records, ..m };
    assert(p.records[t].id == id);
    assert(p.known(id));
    let t2 = choose|t2: int| 0 <= t2 < p.records.len() && p.records[t2].id == id;
    assert(m.records[t2].id == id);
    if t2 != t {
        assert(false);
    }
}

/// A reap pass that finds every process still running changes nothing.
pub proof fn lemma_reap_noop(m: SchedulerModel, polls: Seq<(u128, ExitPoll)>, now: i64)
    requires
        forall|i: int| 0 <= i < polls.len() ==> !spec_poll_terminates(#[trigger] polls[i].1),
    ensures
        spec_reap(m, polls, now) == m,
{
    let post = spec_reap(m, polls, now);
    assert forall|i: int| 0 <= i < m.records.len() implies post.records[i] == m.records[i] by {
        lemma_no_poll_ends(polls, m.records[i].id);
    }
    assert(post.records =~= m.records);
    lemma_reap_running_noop(m.running, polls);
    assert(post.running =~= m.running);
}

/// Helper: with no terminating report at all, no id's process is reported
/// done.
proof fn lemma_no_poll_ends(polls: Seq<(u128, ExitPoll)>, id: u128)
    requires
        forall|i: int| 0 <= i < polls.len() ==> !spec_poll_terminates(#[trigger] polls[i].1),
    ensures
        !spec_poll_ends(polls, id),
{
    if spec_has_poll(polls, id) {
        let c = choose|c: int| 0 <= c < polls.len() && (#[trigger] polls[c].0) == id;
        assert(!spec_poll_terminates(polls[c].1));
        assert(spec_poll_of(polls, id) == polls[c].1);
    }
}

/// Helper for [`lemma_reap_noop`]: a reap pass with no terminating report
/// keeps the running table.
proof fn lemma_reap_running_noop(running: Seq<u128>, polls: Seq<(u128, ExitPoll)>)
    requires
        forall|i: int| 0 <= i < polls.len() ==> !spec_poll_terminates(#[trigger] polls[i].1),
    ensures
        spec_reap_running(running, polls) == running,
    decreases running.len(),
{
    if running.len() == 0 {
        assert(spec_reap_running(running, polls) =~= running);
    } else {
        lemma_reap_running_noop(running.drop_last(), polls);
        lemma_no_poll_ends(polls, running.last());
        assert(spec_reap_running(running, polls) =~= running);
    }
}

/// An admission round that can admit nothing changes nothing, as long as the
/// remembered holder is still running (or none is remembered).
pub proof fn lemma_admit_noop(m: SchedulerModel, now: i64)
    requires
        spec_admit_len(m) == 0,
        spec_model_holder(m) == m.holder,
    ensures
        spec_admit(m, now) == m,
{
    let post = spec_admit(m, now);
    assert forall|i: int| 0 <= i < m.records.len() implies post.records[i] == m.records[i] by {
        if spec_admitted_ids(m).contains(m.records[i].id) {
            let s = choose|s: int|
                0 <= s < spec_admitted_ids(m).len() && spec_admitted_ids(m)[s] == m.records[i].id;
            assert(false);
        }
    }
    assert(post.records =~= m.records);
    assert(post.running =~= m.running);
    assert(post.queue =~= m.queue);
}

/// After one admission round, either the queue is empty or the running table
/// is full: nothing admittable is ever left waiting while capacity is spare.
pub proof fn lemma_admit_saturates(m: SchedulerModel, now: i64)
    ensures
        spec_admit(m, now).queue.len() == 0 || spec_admit(m, now).running.len() >= MAX_JOBS,
{
}

/// After one admission round the remembered holder, if any, is running.
pub proof fn lemma_holder_runs_after_admit(m: SchedulerModel, now: i64)
    ensures
        spec_admit(m, now).holder matches Some(j) ==> spec_admit(m, now).running.contains(j),
{
    let post = spec_admit(m, now);
    let h0 = spec_model_holder(m);
    let k = spec_admit_len(m);
    if h0 is None && k >= 1 {
        assert(spec_admitted_ids(m)[0] == m.queue[0].id);
        assert(post.running[m.running.len() as int] == m.queue[0].id);
    } else {
        match h0 {
            Some(j) => {
                assert(m.running.contains(j));
                let r = choose|r: int| 0 <= r < m.running.len() && m.running[r] == j;
                assert(post.running[r] == j);
            },
            None => {},
        }
    }
}

/// Tick idempotence: a tick is reap followed by admission; a second tick
/// that sees no new submission and no process-state change — every report
/// still running — reaps nothing, admits nothing, and leaves the state
/// exactly as the first tick left it.
pub proof fn lemma_tick_idempotent(
    m: SchedulerModel,
    polls1: Seq<(u128, ExitPoll)>,
    t1: i64,
    polls2: Seq<(u128, ExitPoll)>,
    t2: i64,
)
    requires
        forall|i: int| 0 <= i < polls2.len() ==> !spec_poll_terminates(#[trigger] polls2[i].1),
    ensures
        ({
            let s1 = spec_admit(spec_reap(m, polls1, t1), t1);
            let s2 = spec_admit(spec_reap(s1, polls2, t2), t2);
            &&& spec_reap(s1, polls2, t2) == s1
            &&& spec_admitted(spec_reap(s1, polls2, t2)).len() == 0
            &&& s2 == s1
        }),
{
    let r1 = spec_reap(m, polls1, t1);
    let s1 = spec_admit(r1, t1);
    lemma_reap_noop(s1, polls2, t2);
    lemma_admit_saturates(r1, t1);
    assert(spec_admit_len(s1) == 0);
    lemma_holder_runs_after_admit(r1, t1);
    assert(spec_model_holder(s1) == s1.holder) by {
        match s1.holder {
            Some(j) => {
                assert(s1.running.contains(j));
            },
            None => {},
        }
    }
    lemma_admit_noop(s1, t2);
}

/// The store, queue and running table never diverge: a job is in the queue
/// exactly when its status is `Queued` and in the running table exactly when
/// its status is `Running`; it is never in both, and a finished job is in
/// neither.
pub proof fn lemma_membership_matches_status(m: SchedulerModel, id: u128)
    requires
        m.wf(),
        m.known(id),
    ensures
        m.queue_has(id) <==> m.status_of(id) is Queued,
        m.running_has(id) <==> m.status_of(id) is Running,
        !(m.queue_has(id) && m.running_has(id)),
        m.status_of(id).spec_is_finished() ==> !m.queue_has(id) && !m.running_has(id),
{
    let t = choose|t: int| 0 <= t < m.records.len() && m.records[t].id == id;
    lemma_record_lookup(m, id, t);
    if m.queue_has(id) {
        let q = choose|q: int| 0 <= q < m.queue.len() && (#[trigger] m.queue[q].id) == id;
        assert(m.has_queued_record(m.queue[q].id));
        let r = choose|r: int|
            0 <= r < m.records.len() && (#[trigger] m.records[r].id) == id
                && m.records[r].status is Queued;
        lemma_record_lookup(m, id, r);
    }
    if m.status_of(id) is Queued {
        assert(m.records[t].status is Queued);
        assert(m.queue_has(m.records[t].id));
    }
    if m.running_has(id) {
        let q = choose|q: int| 0 <= q < m.running.len() && (#[trigger] m.running[q]) == id;
        assert(m.has_running_record(m.running[q]));
        let r = choose|r: int|
            0 <= r < m.records.len() && (#[trigger] m.records[r].id) == id
                && m.records[r].status is Running;
        lemma_record_lookup(m, id, r);
    }
    if m.status_of(id) is Running {
        assert(m.records[t].status is Running);
        assert(m.running_has(m.records[t].id));
    }
}

} // verus!
