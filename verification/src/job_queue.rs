//! The order in which the hints of waiting requests are sent.
//!
//! One task sends the jobs. The model here says what each event does to the jobs that
//! wait, to the one that is being sent, and to the reserved blocks.

use crate::clock::{Duration, Instant};
use crate::lookahead::{
    admitted, held, law_admitted_blocks_were_free, without_blocks, Reservations,
};
use crate::prefetch::{
    blocks_of, candidate_pairs, hinted, is_delivered, CxlPrefetchConfig, JobModel, SendOutcome,
};
use crate::protocols::{LocalBlockHash, WorkerWithDpRank};
use vstd::prelude::*;

verus! {

/// What stays the same while jobs come and go.
pub struct QueueSettings {
    pub config: CxlPrefetchConfig,
    pub capacity: nat,
    pub ttl: Duration,
}

#[verifier::ext_equal]
pub struct QueueModel {
    /// The task that sends jobs has been started.
    pub started: bool,
    /// The jobs that have not been taken up, in the order in which they came.
    pub waiting: Seq<JobModel>,
    pub sending: Option<JobModel>,
    pub reservations: Reservations,
}

pub enum QueueEvent {
    /// The task is to be started if it has not been.
    Start,
    /// A request that waits for its route asks for blocks.
    Request {
        worker: WorkerWithDpRank,
        blocks: Seq<LocalBlockHash>,
        indices: Seq<u32>,
        now: Instant,
    },
    /// A job is to be queued; `admitted` says whether there was room.
    Enqueue { job: JobModel, admitted: bool },
    /// The task is ready for a job.
    Take,
    /// The job that was being sent is done.
    Sent { outcome: SendOutcome },
}

/// A job can be taken up: one waits, and none is being sent.
pub open spec fn can_take(q: QueueModel) -> bool {
    q.sending is None && q.waiting.len() > 0
}

/// The reservations without those of the job.
pub open spec fn without_job(reservations: Reservations, job: JobModel) -> Reservations {
    without_blocks(reservations, job.worker, job.reserved_blocks)
}

/// What an event does.
pub open spec fn after_event(
    settings: QueueSettings,
    q: QueueModel,
    event: QueueEvent,
) -> QueueModel {
    match event {
        QueueEvent::Start => QueueModel { started: true, ..q },
        QueueEvent::Request { worker, blocks, indices, now } => QueueModel {
            reservations: hinted(
                settings.config,
                q.reservations,
                settings.capacity,
                settings.ttl,
                worker,
                blocks,
                indices,
                now,
            ).0,
            ..q
        },
        QueueEvent::Enqueue { job, admitted } => if admitted {
            QueueModel { waiting: q.waiting.push(job), ..q }
        } else {
            QueueModel { reservations: without_job(q.reservations, job), ..q }
        },
        QueueEvent::Take => if can_take(q) {
            QueueModel { waiting: q.waiting.drop_first(), sending: Some(q.waiting[0]), ..q }
        } else {
            q
        },
        QueueEvent::Sent { outcome } => match q.sending {
            Some(job) => QueueModel {
                sending: None,
                reservations: if is_delivered(outcome) {
                    q.reservations
                } else {
                    without_job(q.reservations, job)
                },
                ..q
            },
            None => q,
        },
    }
}

/// What the events do one after another.
pub open spec fn after_events(
    settings: QueueSettings,
    q: QueueModel,
    events: Seq<QueueEvent>,
) -> QueueModel
    decreases events.len(),
{
    if events.len() == 0 {
        q
    } else {
        after_event(settings, after_events(settings, q, events.drop_last()), events.last())
    }
}

/// How many of the events start the task.
pub open spec fn tasks_started(
    settings: QueueSettings,
    q: QueueModel,
    events: Seq<QueueEvent>,
) -> nat
    decreases events.len(),
{
    if events.len() == 0 {
        0
    } else {
        let before = after_events(settings, q, events.drop_last());
        tasks_started(settings, q, events.drop_last()) + if events.last() is Start
            && !before.started {
            1nat
        } else {
            0nat
        }
    }
}

/// The jobs for which there was room, in the order in which they came.
pub open spec fn jobs_queued(events: Seq<QueueEvent>) -> Seq<JobModel>
    decreases events.len(),
{
    if events.len() == 0 {
        Seq::empty()
    } else {
        match events.last() {
            QueueEvent::Enqueue { job, admitted } => if admitted {
                jobs_queued(events.drop_last()).push(job)
            } else {
                jobs_queued(events.drop_last())
            },
            _ => jobs_queued(events.drop_last()),
        }
    }
}

/// The jobs that were taken up, in that order.
pub open spec fn jobs_taken(
    settings: QueueSettings,
    q: QueueModel,
    events: Seq<QueueEvent>,
) -> Seq<JobModel>
    decreases events.len(),
{
    if events.len() == 0 {
        Seq::empty()
    } else {
        let before = after_events(settings, q, events.drop_last());
        let taken = jobs_taken(settings, q, events.drop_last());
        if events.last() is Take && can_take(before) {
            taken.push(before.waiting[0])
        } else {
            taken
        }
    }
}

/// The jobs that were done with, in that order.
pub open spec fn jobs_done(
    settings: QueueSettings,
    q: QueueModel,
    events: Seq<QueueEvent>,
) -> Seq<JobModel>
    decreases events.len(),
{
    if events.len() == 0 {
        Seq::empty()
    } else {
        let before = after_events(settings, q, events.drop_last());
        let done = jobs_done(settings, q, events.drop_last());
        match before.sending {
            Some(job) => if events.last() is Sent {
                done.push(job)
            } else {
                done
            },
            None => done,
        }
    }
}

/// The job that is being sent, as a sequence of at most one.
pub open spec fn under_way(q: QueueModel) -> Seq<JobModel> {
    match q.sending {
        Some(job) => seq![job],
        None => Seq::empty(),
    }
}

/// The event frees the block: it belongs to a job that found no room or that the worker
/// has not taken.
pub open spec fn frees(
    q: QueueModel,
    event: QueueEvent,
    key: (WorkerWithDpRank, LocalBlockHash),
) -> bool {
    match event {
        QueueEvent::Enqueue { job, admitted } => !admitted && job.worker == key.0
            && job.reserved_blocks.contains(key.1),
        QueueEvent::Sent { outcome } => !is_delivered(outcome) && match q.sending {
            Some(job) => job.worker == key.0 && job.reserved_blocks.contains(key.1),
            None => false,
        },
        _ => false,
    }
}

/// Some event frees the block.
pub open spec fn freed(
    settings: QueueSettings,
    q: QueueModel,
    events: Seq<QueueEvent>,
    key: (WorkerWithDpRank, LocalBlockHash),
) -> bool {
    exists|i: int|
        0 <= i < events.len() && frees(
            after_events(settings, q, events.take(i)),
            #[trigger] events[i],
            key,
        )
}

/// However often the task is to be started, it is started once, by the first such event.
pub proof fn law_one_task_starts(
    settings: QueueSettings,
    q: QueueModel,
    events: Seq<QueueEvent>,
)
    ensures
        tasks_started(settings, q, events) == if !q.started && events.contains(
            QueueEvent::Start,
        ) {
            1nat
        } else {
            0nat
        },
        after_events(settings, q, events).started == (q.started || events.contains(
            QueueEvent::Start,
        )),
    decreases events.len(),
{
    if events.len() > 0 {
        let init = events.drop_last();
        law_one_task_starts(settings, q, init);
        assert(events[events.len() - 1] == events.last());
        if init.contains(QueueEvent::Start) {
            let i = choose|i: int| 0 <= i < init.len() && init[i] == QueueEvent::Start;
            assert(events[i] == QueueEvent::Start);
        }
        if events.contains(QueueEvent::Start) && !(events.last() is Start) {
            let i = choose|i: int| 0 <= i < events.len() && events[i] == QueueEvent::Start;
            assert(init[i] == QueueEvent::Start);
        }
    }
}

/// Jobs are taken up in the order in which they were queued, each once: those that were
/// taken up, followed by those that wait, are those that waited at first, followed by
/// those that were queued.
pub proof fn law_jobs_are_taken_in_order(
    settings: QueueSettings,
    q: QueueModel,
    events: Seq<QueueEvent>,
)
    ensures
        jobs_taken(settings, q, events) + after_events(settings, q, events).waiting == q.waiting
            + jobs_queued(events),
    decreases events.len(),
{
    if events.len() > 0 {
        let init = events.drop_last();
        law_jobs_are_taken_in_order(settings, q, init);
        let before = after_events(settings, q, init);
        let taken = jobs_taken(settings, q, init);
        let all = q.waiting + jobs_queued(init);
        match events.last() {
            QueueEvent::Enqueue { job, admitted } => if admitted {
                assert(taken + before.waiting.push(job) =~= (taken + before.waiting).push(job));
                assert(q.waiting + jobs_queued(init).push(job) =~= all.push(job));
            },
            QueueEvent::Take => if can_take(before) {
                assert(taken.push(before.waiting[0]) + before.waiting.drop_first() =~= taken
                    + before.waiting);
            },
            _ => {},
        }
    } else {
        assert(Seq::<JobModel>::empty() + q.waiting =~= q.waiting + Seq::<JobModel>::empty());
    }
}

/// Jobs are sent one at a time: before one is taken up, all that were taken up earlier
/// are done with, in the same order.
pub proof fn law_jobs_are_sent_one_at_a_time(
    settings: QueueSettings,
    q: QueueModel,
    events: Seq<QueueEvent>,
)
    ensures
        jobs_done(settings, q, events) + under_way(after_events(settings, q, events))
            == under_way(q) + jobs_taken(settings, q, events),
    decreases events.len(),
{
    if events.len() > 0 {
        let init = events.drop_last();
        law_jobs_are_sent_one_at_a_time(settings, q, init);
        let before = after_events(settings, q, init);
        let done = jobs_done(settings, q, init);
        let taken = jobs_taken(settings, q, init);
        let none = Seq::<JobModel>::empty();
        match events.last() {
            QueueEvent::Take => if can_take(before) {
                let job = before.waiting[0];
                assert(done + none =~= done);
                assert(under_way(q) + taken.push(job) =~= (under_way(q) + taken).push(job));
                assert(done + seq![job] =~= done.push(job));
            },
            QueueEvent::Sent { outcome } => {
                if let Some(job) = before.sending {
                    assert(done.push(job) + none =~= done + seq![job]);
                }
            },
            _ => {},
        }
    } else {
        assert(Seq::<JobModel>::empty() + under_way(q) =~= under_way(q)
            + Seq::<JobModel>::empty());
    }
}

/// A job that could not be sent, or not in time, frees exactly the blocks that it had
/// reserved on its worker. One that was sent frees none.
pub proof fn law_failed_jobs_free_their_blocks(
    settings: QueueSettings,
    q: QueueModel,
    job: JobModel,
    outcome: SendOutcome,
    key: (WorkerWithDpRank, LocalBlockHash),
)
    requires
        q.sending == Some(job),
    ensures
        ({
            let after = after_event(settings, q, QueueEvent::Sent { outcome });
            &&& after.reservations.contains_key(key) == (q.reservations.contains_key(key) && (
            is_delivered(outcome) || key.0 != job.worker || !job.reserved_blocks.contains(key.1)))
            &&& after.reservations.contains_key(key) ==> after.reservations[key]
                == q.reservations[key]
        }),
{
}

/// A reservation stays, whatever else happens, until a job frees its block or a request
/// comes after its time has ended.
pub proof fn law_reservations_stay(
    settings: QueueSettings,
    q: QueueModel,
    events: Seq<QueueEvent>,
    key: (WorkerWithDpRank, LocalBlockHash),
)
    requires
        q.reservations.contains_key(key),
        !freed(settings, q, events, key),
        forall|i: int|
            0 <= i < events.len() ==> ((#[trigger] events[i]) matches QueueEvent::Request {
                now,
                ..
            } ==> now.nanos < q.reservations[key].nanos),
    ensures
        after_events(settings, q, events).reservations.contains_key(key),
        after_events(settings, q, events).reservations[key] == q.reservations[key],
    decreases events.len(),
{
    if events.len() > 0 {
        let init = events.drop_last();
        let last = events.len() - 1;
        assert(events.take(last) =~= init);
        assert(events[last] == events.last());
        assert(!freed(settings, q, init, key)) by {
            if freed(settings, q, init, key) {
                let i = choose|i: int|
                    0 <= i < init.len() && frees(
                        after_events(settings, q, init.take(i)),
                        #[trigger] init[i],
                        key,
                    );
                assert(init.take(i) =~= events.take(i));
                assert(init[i] == events[i]);
            }
        }
        assert forall|i: int| 0 <= i < init.len() implies ((
        #[trigger] init[i]) matches QueueEvent::Request { now, .. } ==> now.nanos
            < q.reservations[key].nanos) by {
            assert(init[i] == events[i]);
        }
        law_reservations_stay(settings, q, init, key);
        let before = after_events(settings, q, init);
        assert(!frees(before, events[last], key));
        if let QueueEvent::Request { worker, blocks, indices, now } = events[last] {
            let pairs = candidate_pairs(blocks, indices, settings.config.max_chunks as int);
            let current = held(before.reservations, now);
            assert(current.contains_key(key));
            law_admitted_blocks_were_free(current, worker, blocks_of(pairs), settings.capacity);
            if key.0 == worker {
                assert(!admitted(
                    current,
                    worker,
                    blocks_of(pairs),
                    settings.capacity,
                ).contains(key.1));
            }
        }
    }
}

} // verus!
