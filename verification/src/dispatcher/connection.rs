//! The connection of one peer, from its first message to its end.

use crate::dispatcher::registry::{
    heard, judge_registration, newcomer, registered_at, remaining_workers, tells_unknown_queue,
    Reaction, RegisteredWorker, Registration, SessionError, WorkerRegistry,
};
use crate::engine::WorkerEvent;
use crate::protocol::WorkerMessage;
use crate::span::Span;
use crate::text::texts;
use vstd::prelude::*;

verus! {

/// A connection, and the instance that has registered over it.
pub struct Connection {
    pub instance: Option<u128>,
}

/// Whether workers may register for `queue`.
pub open spec fn is_admitted(queue: Seq<char>, allowed: Seq<Seq<char>>) -> bool {
    queue.len() > 0 && allowed.contains(queue)
}

/// What comes of the first message over a connection: it has to be the
/// registration of a new instance for a queue that is allowed. Whatever else is
/// said is refused, and nobody is registered by it.
pub open spec fn introduced(
    before: Seq<RegisteredWorker>,
    allowed: Seq<Seq<char>>,
    message: WorkerMessage,
    now: Span,
    after: Seq<RegisteredWorker>,
    instance: Option<u128>,
    result: Result<Reaction, SessionError>,
) -> bool {
    match message {
        WorkerMessage::Register { instance_id, queue_name, running_jobs, free_slots } => {
            if !is_admitted(queue_name@, allowed) {
                &&& result is Err
                &&& result->Err_0 matches SessionError::UnknownQueue { reply }
                &&& tells_unknown_queue(reply)
                &&& instance is None
                &&& after == before
            } else if exists|at: int| registered_at(before, instance_id, at) {
                &&& result is Err
                &&& result->Err_0 == SessionError::DuplicateInstance
                &&& instance is None
                &&& after == before
            } else {
                let registration = Registration {
                    instance_id,
                    queue_name,
                    running_jobs,
                    free_slots,
                };
                &&& result is Ok
                &&& result->Ok_0.reply == Some(WorkerMessage::Registered { queue_name })
                &&& result->Ok_0.event == Some(WorkerEvent::Registered { queue_name })
                &&& instance == Some(instance_id)
                &&& after == before.push(newcomer(registration, now))
            }
        },
        _ => {
            &&& result is Err
            &&& result->Err_0 == SessionError::NotRegistered
            &&& instance is None
            &&& after == before
        },
    }
}

impl Connection {
    /// A connection over which nothing has been said.
    pub fn new() -> (r: Self)
        ensures
            r.instance is None,
    {
        Connection { instance: None }
    }

    /// Takes in what the peer says at `now`, where workers may register for the
    /// queues in `allowed`. The reply, if there is one, goes out before the
    /// event. After an error the connection is to be closed.
    pub fn on_message(
        &mut self,
        registry: &mut WorkerRegistry,
        allowed: &Vec<String>,
        message: WorkerMessage,
        now: Span,
    ) -> (r: Result<Reaction, SessionError>)
        requires
            old(registry).wf(),
        ensures
            final(registry).wf(),
            match old(self).instance {
                None => introduced(
                    old(registry).workers@,
                    texts(allowed@),
                    message,
                    now,
                    final(registry).workers@,
                    final(self).instance,
                    r,
                ),
                Some(instance_id) => {
                    &&& final(self).instance == old(self).instance
                    &&& heard(
                        old(registry).workers@,
                        instance_id,
                        message,
                        now,
                        final(registry).workers@,
                        r,
                    )
                },
            },
    {
        match self.instance {
            Some(instance_id) => registry.on_message(instance_id, message, now),
            None => {
                let registration = match judge_registration(message, allowed) {
                    Ok(registration) => registration,
                    Err(error) => return Err(error),
                };
                let instance_id = registration.instance_id;
                match registry.register(registration, now) {
                    Ok((reply, event)) => {
                        self.instance = Some(instance_id);
                        Ok(Reaction { event: Some(event), reply: Some(reply) })
                    },
                    Err(error) => Err(error),
                }
            },
        }
    }

    /// Forgets the worker of a connection that has ended. Where nobody has
    /// registered over it, nobody is forgotten.
    pub fn close(&mut self, registry: &mut WorkerRegistry)
        requires
            old(registry).wf(),
        ensures
            final(registry).wf(),
            final(self).instance is None,
            final(registry).workers@ == (match old(self).instance {
                Some(instance_id) => remaining_workers(old(registry).workers@, instance_id),
                None => old(registry).workers@,
            }),
    {
        match self.instance {
            Some(instance_id) => {
                registry.disconnect(instance_id);
                self.instance = None;
            },
            None => {},
        }
    }
}

/// A peer that is refused leaves no trace, and takes nobody with it when its
/// connection is closed: not even the worker whose instance it claimed to be.
pub proof fn refused_peers_leave_no_trace(
    before: Seq<RegisteredWorker>,
    allowed: Seq<Seq<char>>,
    message: WorkerMessage,
    now: Span,
    after: Seq<RegisteredWorker>,
    instance: Option<u128>,
    result: Result<Reaction, SessionError>,
)
    requires
        introduced(before, allowed, message, now, after, instance, result),
        result is Err,
    ensures
        after == before,
        instance is None,
{
}

/// A connection is taken up exactly by the registration of a new instance for a
/// named queue that is allowed. The worker is then on record with the slots and
/// jobs it named, and both it and the engine are told of its queue. Whoever
/// names another queue is told that it is not known.
pub proof fn connections_start_with_a_registration(
    before: Seq<RegisteredWorker>,
    allowed: Seq<Seq<char>>,
    message: WorkerMessage,
    now: Span,
    after: Seq<RegisteredWorker>,
    instance: Option<u128>,
    result: Result<Reaction, SessionError>,
)
    requires
        introduced(before, allowed, message, now, after, instance, result),
    ensures
        match message {
            WorkerMessage::Register { instance_id, queue_name, running_jobs, free_slots } => {
                let known = queue_name@.len() > 0 && allowed.contains(queue_name@);
                let fresh = forall|i: int|
                    0 <= i < before.len() ==> (#[trigger] before[i]).instance_id != instance_id;
                &&& result is Ok <==> known && fresh
                &&& instance == (if known && fresh {
                    Some(instance_id)
                } else {
                    None
                })
                &&& known && fresh ==> {
                    &&& result->Ok_0.reply == Some(WorkerMessage::Registered { queue_name })
                    &&& result->Ok_0.event == Some(WorkerEvent::Registered { queue_name })
                    &&& after.len() == before.len() + 1
                    &&& after.drop_last() == before
                    &&& after.last().instance_id == instance_id
                    &&& after.last().state.queue_name == queue_name
                    &&& after.last().state.running_jobs == running_jobs
                    &&& after.last().state.free_slots == free_slots
                    &&& after.last().state.reserved_slots == 0
                    &&& after.last().state.last_activity == now
                    &&& !after.last().state.draining
                }
                &&& !(known && fresh) ==> after == before
                &&& known && !fresh ==> result->Err_0 == SessionError::DuplicateInstance
                &&& !known ==> {
                    &&& result->Err_0 matches SessionError::UnknownQueue {
                        reply: WorkerMessage::Error { code, message: told },
                    }
                    &&& code@ == "unknown_queue"@
                    &&& told@ == "registration contains an unknown queue"@
                }
            },
            _ => {
                &&& result is Err
                &&& result->Err_0 == SessionError::NotRegistered
                &&& instance is None
                &&& after == before
            },
        },
{
    match message {
        WorkerMessage::Register { instance_id, queue_name, running_jobs, free_slots } => {
            if exists|at: int| registered_at(before, instance_id, at) {
                let at = choose|at: int| registered_at(before, instance_id, at);
                assert(before[at].instance_id == instance_id);
            }
            assert forall|i: int|
                0 <= i < before.len() && (#[trigger] before[i]).instance_id
                    == instance_id implies registered_at(before, instance_id, i) by {}
            if result is Ok {
                assert(after.drop_last() =~= before);
            }
        },
        _ => {},
    }
}

} // verus!
