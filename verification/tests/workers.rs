use maqistor::dispatcher::connection::Connection;
use maqistor::dispatcher::registry::{
    begin_drain, judge_registration, record_worker_capacity, RegisteredWorker, Registration,
    RegistryPermit, SessionError, WorkerRegistry, WorkerState,
};
use maqistor::engine::types::{AcceptedJob, Job};
use maqistor::engine::{DispatchError, JobOutcome, QueueReservation, ReservedDispatch, WorkerEvent};
use maqistor::protocol::{
    body_length, decode_frame, encode_frame, JobResult, ProtocolError, ProtocolFrame,
    WorkerMessage, MAX_FRAME_BYTES, PROTOCOL_VERSION,
};
use maqistor::span::Span;
use maqistor::worker::{
    invalid_payload, registration, report, JobEnd, Session, SessionStep, WorkerRunError,
};

fn state(free_slots: u32, reserved_slots: u32, draining: bool) -> WorkerState {
    WorkerState {
        queue_name: "email".into(),
        running_jobs: 0,
        free_slots,
        last_activity: Span::from_millis(0),
        reserved_slots,
        draining,
    }
}

fn registry(workers: Vec<(u128, WorkerState)>) -> WorkerRegistry {
    WorkerRegistry {
        workers: workers
            .into_iter()
            .map(|(instance_id, state)| RegisteredWorker { instance_id, state })
            .collect(),
    }
}

fn ask(queue: &str, count: usize) -> Vec<QueueReservation> {
    vec![QueueReservation {
        queue_name: queue.into(),
        count,
    }]
}

fn dispatched_job() -> Job {
    let mut accepted = AcceptedJob::new("email", b"{}".to_vec());
    accepted.id = 9;
    accepted.dispatch_id = Some("dispatch-9".into());
    Job::from_accepted(accepted, None)
}

#[test]
fn worker_result_replaces_reservation_estimate_with_capacity_snapshot() {
    let mut worker = WorkerState {
        queue_name: "email".into(),
        running_jobs: 3,
        free_slots: 0,
        last_activity: Span::from_millis(0),
        reserved_slots: 3,
        draining: false,
    };

    record_worker_capacity(&mut worker, 2, 1);

    assert_eq!(worker.reserved_slots, 0);
    assert_eq!(worker.running_jobs, 2);
    assert_eq!(worker.free_slots, 1);
}

#[test]
fn draining_workers_are_not_reserved() {
    let mut registry = registry(vec![(1, state(1, 0, true))]);
    assert!(registry.reserve(&ask("email", 1)).is_empty());
}

#[test]
fn drain_ack_follows_a_dispatch_queued_before_drain() {
    let mut registry = registry(vec![(1, state(1, 1, false))]);
    let permit = ReservedDispatch::new("email".into(), RegistryPermit { worker_id: 1 });
    let frame = registry.dispatch(permit, dispatched_job()).unwrap();
    assert!(matches!(frame, WorkerMessage::JobDispatch { job_id: 9, .. }));
    let frame = begin_drain(&mut registry.workers[0].state);
    assert!(matches!(frame, WorkerMessage::Draining));
    assert!(registry.workers[0].state.draining);
}

#[test]
fn reservations_never_exceed_free_slots() {
    let mut registry = registry(vec![(1, state(2, 0, false)), (2, state(1, 0, false))]);
    let permits = registry.reserve(&ask("email", 10));
    assert_eq!(permits.len(), 3);
    assert!(registry.reserve(&ask("email", 1)).is_empty());
    assert!(registry.reserve(&ask("sms", 1)).is_empty());
    for permit in permits {
        registry.release(permit);
    }
    assert_eq!(registry.reserve(&ask("email", 10)).len(), 3);
}

#[test]
fn deliveries_to_lost_workers_fail() {
    let mut registry = WorkerRegistry::new();
    let permit = ReservedDispatch::new("email".into(), RegistryPermit { worker_id: 1 });
    assert_eq!(
        registry.dispatch(permit, dispatched_job()),
        Err(DispatchError::Internal("reserved worker disappeared".into()))
    );
}

#[test]
fn registrations_are_judged() {
    let allowed = vec!["email".to_string()];
    assert_eq!(
        judge_registration(registration(7, "email", 3), &allowed).unwrap(),
        Registration {
            instance_id: 7,
            queue_name: "email".into(),
            running_jobs: 0,
            free_slots: 3
        }
    );
    let refused = judge_registration(registration(7, "sms", 3), &allowed).unwrap_err();
    assert_eq!(refused.to_text(), "unknown queue");
    assert!(matches!(
        refused,
        SessionError::UnknownQueue { reply: WorkerMessage::Error { code, message } }
            if code == "unknown_queue" && message == "registration contains an unknown queue"
    ));
    assert_eq!(
        judge_registration(WorkerMessage::Heartbeat, &allowed)
            .unwrap_err()
            .to_text(),
        "first worker frame must register"
    );
}

#[test]
fn sessions_run_from_registration_to_disconnect() {
    let mut registry = WorkerRegistry::new();
    let seen = |instance_id| Registration {
        instance_id,
        queue_name: "email".into(),
        running_jobs: 0,
        free_slots: 1,
    };
    let (reply, event) = registry.register(seen(7), Span::from_millis(1)).unwrap();
    assert!(matches!(reply, WorkerMessage::Registered { queue_name } if queue_name == "email"));
    assert!(matches!(event, WorkerEvent::Registered { queue_name } if queue_name == "email"));
    let twice = registry.register(seen(7), Span::from_millis(2)).unwrap_err();
    assert_eq!(twice.to_text(), "duplicate worker instance");

    let reaction = registry
        .on_message(
            7,
            report(1, 1, 3, "d".into(), Ok(vec![5])),
            Span::from_millis(3),
        )
        .unwrap();
    match reaction.event {
        Some(WorkerEvent::Result { result, .. }) => {
            assert_eq!(result.job_id, 3);
            assert_eq!(result.outcome, JobOutcome::Succeeded(vec![5]));
        }
        _ => panic!("a result is told"),
    }
    assert_eq!(registry.workers[0].state.last_activity, Span::from_millis(3));
    let reaction = registry
        .on_message(7, WorkerMessage::Drain, Span::from_millis(4))
        .unwrap();
    assert_eq!(reaction.reply, Some(WorkerMessage::Draining));
    assert!(registry.reserve(&ask("email", 1)).is_empty());
    assert!(registry
        .on_message(7, WorkerMessage::Heartbeat, Span::from_millis(5))
        .is_ok());
    assert!(matches!(
        registry.on_message(7, WorkerMessage::Draining, Span::from_millis(6)),
        Err(SessionError::InvalidFrame)
    ));
    assert!(matches!(
        registry.on_message(8, WorkerMessage::Heartbeat, Span::from_millis(6)),
        Err(SessionError::Disappeared)
    ));
    registry.disconnect(7);
    assert!(registry.position(7).is_none());
    assert_eq!(SessionError::Disappeared.to_text(), "worker disappeared");
    assert_eq!(
        SessionError::InvalidFrame.to_text(),
        "invalid post-registration worker frame"
    );
}

#[test]
fn round_trip() {
    let frame = ProtocolFrame::v1(WorkerMessage::Heartbeat);
    let body = b"heartbeat".to_vec();
    let bytes = encode_frame(frame.protocol_version, &body).unwrap();
    assert_eq!(bytes[..4], [0, 0, 0, 9]);
    assert_eq!(decode_frame(&bytes).unwrap(), body);
    assert_eq!(frame.clone().supported().unwrap(), frame);
}

#[test]
fn odd_frames_are_refused() {
    assert_eq!(
        encode_frame(PROTOCOL_VERSION + 1, &vec![]).unwrap_err(),
        ProtocolError::UnsupportedVersion(2)
    );
    assert_eq!(
        encode_frame(PROTOCOL_VERSION, &vec![0; MAX_FRAME_BYTES + 1]).unwrap_err(),
        ProtocolError::FrameTooLarge
    );
    let prefix = ((MAX_FRAME_BYTES + 1) as u32).to_be_bytes();
    assert_eq!(body_length(prefix).unwrap_err(), ProtocolError::FrameTooLarge);
    assert_eq!(body_length([0, 0, 1, 2]).unwrap(), 258);
    assert_eq!(
        decode_frame(&vec![0, 0]).unwrap_err().to_text(),
        "I/O error: missing frame length"
    );
    assert_eq!(
        decode_frame(&vec![0, 0, 0, 2, 1]).unwrap_err().to_text(),
        "I/O error: frame length mismatch"
    );
    assert_eq!(
        decode_frame(&vec![255, 0, 0, 0]).unwrap_err(),
        ProtocolError::FrameTooLarge
    );
    assert_eq!(
        ProtocolError::Malformed("x".into()).to_text(),
        "malformed frame: x"
    );
    let mut odd = ProtocolFrame::v1(WorkerMessage::Heartbeat);
    odd.protocol_version = 3;
    assert_eq!(
        odd.supported().unwrap_err().to_text(),
        "unsupported protocol version 3"
    );
    assert_eq!(
        ProtocolError::FrameTooLarge.to_text(),
        "frame exceeds 1048576 byte limit"
    );
}

fn dispatch(job_id: i64) -> WorkerMessage {
    WorkerMessage::JobDispatch {
        job_id,
        dispatch_id: format!("dispatch-{job_id}"),
        execution_count: 1,
        payload: b"null".to_vec(),
    }
}

#[test]
fn drain_finishes_pre_ack_jobs_before_returning() {
    let mut session = Session::new("email");
    assert!(session.may_shut_down());
    assert!(matches!(session.shut_down(), WorkerMessage::Drain));
    assert!(!session.may_shut_down());
    let step = session.on_message(dispatch(7)).unwrap();
    assert!(matches!(step, SessionStep::Run { job_id: 7, .. }));
    assert_eq!(
        session.on_message(WorkerMessage::Draining).unwrap(),
        SessionStep::Continue
    );
    assert!(!session.is_done());
    let told = report(1, 0, 7, "dispatch-7".into(), Ok(vec![1]));
    assert!(matches!(told, WorkerMessage::JobResult { job_id: 7, .. }));
    session.job_ended(JobEnd::Reported).unwrap();
    assert!(session.is_done());
}

#[test]
fn frames_out_of_place_end_a_session() {
    let mut session = Session::new("email");
    let odd = session.on_message(WorkerMessage::Draining).unwrap_err();
    assert_eq!(
        odd.to_text(),
        "worker configuration error: unexpected worker frame"
    );
    let other = WorkerMessage::Registered {
        queue_name: "sms".into(),
    };
    assert!(session.on_message(other).is_err());
    let own = WorkerMessage::Registered {
        queue_name: "email".into(),
    };
    assert!(session.on_message(own).is_ok());
    let refused = session
        .on_message(WorkerMessage::Error {
            code: "c".into(),
            message: "m".into(),
        })
        .unwrap_err();
    assert_eq!(refused.to_text(), "remote worker error c: m");
    session.shut_down();
    session.on_message(WorkerMessage::Draining).unwrap();
    assert!(session.on_message(dispatch(1)).is_err());
}

#[test]
fn failed_reports_end_a_session() {
    let mut session = Session::new("email");
    session.on_message(dispatch(1)).unwrap();
    session.on_message(dispatch(2)).unwrap();
    assert!(session.job_ended(JobEnd::Aborted).is_ok() || session.jobs < 2);
    let error = session
        .job_ended(JobEnd::Failed(WorkerRunError::Io("gone".into())))
        .unwrap_err();
    assert_eq!(error.to_text(), "I/O error: gone");
    assert_eq!(WorkerRunError::Stopped.to_text(), "worker stopped");
    assert_eq!(WorkerRunError::Tls("t".into()).to_text(), "TLS error: t");
    assert_eq!(
        WorkerRunError::Protocol(ProtocolError::Io("x".into())).to_text(),
        "protocol error: I/O error: x"
    );
}

#[test]
fn reports_carry_the_outcome_and_the_capacity() {
    match report(4, 1, 3, "d".into(), Err("broken".into())) {
        WorkerMessage::JobResult {
            job_id,
            result,
            running_jobs,
            free_slots,
            ..
        } => {
            assert_eq!(job_id, 3);
            assert_eq!(
                result,
                JobResult::Failed {
                    message: "broken".into()
                }
            );
            assert_eq!(running_jobs + free_slots, 4);
        }
        _ => panic!("a result is reported"),
    }
    assert!(invalid_payload("eof").contains("eof"));
}

#[test]
fn connections_register_once_and_are_forgotten() {
    let allowed = vec!["email".to_string()];
    let at = Span::from_millis(5);
    let mut registry = WorkerRegistry::new();
    let mut connection = Connection::new();
    let reaction = connection
        .on_message(&mut registry, &allowed, registration(7, "email", 3), at)
        .unwrap();
    assert_eq!(
        reaction.reply,
        Some(WorkerMessage::Registered {
            queue_name: "email".into()
        })
    );
    assert_eq!(
        reaction.event,
        Some(WorkerEvent::Registered {
            queue_name: "email".into()
        })
    );
    assert_eq!(connection.instance, Some(7));

    let mut other = Connection::new();
    let refused = other.on_message(&mut registry, &allowed, registration(7, "email", 1), at);
    assert!(matches!(refused, Err(SessionError::DuplicateInstance)));
    other.close(&mut registry);
    assert_eq!(registry.position(7), Some(0));

    let again = connection.on_message(&mut registry, &allowed, registration(7, "email", 3), at);
    assert!(matches!(again, Err(SessionError::InvalidFrame)));
    connection.close(&mut registry);
    assert_eq!(registry.position(7), None);
    assert_eq!(connection.instance, None);
}

#[test]
fn strangers_are_refused() {
    let allowed = vec!["email".to_string()];
    let at = Span::from_millis(5);
    let mut registry = WorkerRegistry::new();
    let mut connection = Connection::new();
    let refused = connection.on_message(&mut registry, &allowed, registration(7, "sms", 3), at);
    assert!(matches!(refused, Err(SessionError::UnknownQueue { .. })));
    let refused = connection.on_message(&mut registry, &allowed, WorkerMessage::Heartbeat, at);
    assert!(matches!(refused, Err(SessionError::NotRegistered)));
    assert!(registry.workers.is_empty());
}
