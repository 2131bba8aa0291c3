use protohackers::chat::event::Event;
use protohackers::chat::names::Rejection;
use protohackers::chat::registry::Registry;
use protohackers::chat::worker::{ConnectionError, Step, Worker, WorkerState};
use protohackers::framer::FrameError;

fn joined(registry: &mut Registry, name: &str, sink: u64) -> Worker {
    let mut worker = Worker::new(sink);
    let step = worker.on_frame(name.to_string(), registry);
    assert_eq!(step.ended, None);
    worker
}

#[test]
fn a_worker_starts_handshaking_and_greets() {
    let worker = Worker::new(4);
    assert_eq!(*worker.state(), WorkerState::Handshaking);
    assert_eq!(worker.sink(), 4);
    assert!(!worker.is_terminated());
    assert_eq!(worker.greeting(), "Welcome to budgetchat! What shall I call you?\n");
}

#[test]
fn a_good_name_makes_the_worker_active() {
    let mut registry = Registry::new();
    registry.try_admit("alice", 1);
    let mut worker = Worker::new(2);
    let step = worker.on_frame("bob".to_string(), &mut registry);
    assert_eq!(
        step,
        Step {
            reply: Some("*Welcome. Users in room: alice\n".to_string()),
            post: Some(Event::Joined("bob".to_string())),
            ended: None,
        }
    );
    assert_eq!(*worker.state(), WorkerState::Active("bob".to_string()));
    assert!(registry.contains("bob"));
}

#[test]
fn a_bad_name_ends_the_connection_without_a_trace() {
    let cases = [
        ("", Rejection::EmptyName),
        ("a b", Rejection::NonAsciiOrNonAlnum),
        ("alice", Rejection::NameTaken),
    ];
    for (name, reason) in cases {
        let mut registry = Registry::new();
        registry.try_admit("alice", 1);
        let mut worker = Worker::new(2);
        let step = worker.on_frame(name.to_string(), &mut registry);
        assert_eq!(
            step,
            Step {
                reply: Some("Invalid username\n".to_string()),
                post: None,
                ended: Some(ConnectionError::HandshakeRejected(reason)),
            }
        );
        assert!(worker.is_terminated());
        assert_eq!(registry.len(), 1);
        assert_eq!(registry.snapshot_excluding("")[0].sink, 1);
    }
}

#[test]
fn a_failure_during_the_handshake_posts_nothing() {
    let mut registry = Registry::new();
    registry.try_admit("alice", 1);
    let mut worker = Worker::new(2);
    let step = worker.on_failure(ConnectionError::PeerClosed, &mut registry);
    assert_eq!(step, Step { reply: None, post: None, ended: Some(ConnectionError::PeerClosed) });
    assert!(worker.is_terminated());
    assert_eq!(registry.len(), 1);
}

#[test]
fn an_active_worker_posts_each_frame_as_a_message() {
    let mut registry = Registry::new();
    let mut worker = joined(&mut registry, "alice", 1);
    for text in ["hello", "", "[bob] not really"] {
        let step = worker.on_frame(text.to_string(), &mut registry);
        assert_eq!(
            step,
            Step {
                reply: None,
                post: Some(Event::Sent("alice".to_string(), text.to_string())),
                ended: None,
            }
        );
        assert_eq!(*worker.state(), WorkerState::Active("alice".to_string()));
    }
    assert_eq!(registry.len(), 1);
}

#[test]
fn a_failure_of_an_active_worker_removes_it_and_posts_the_leave() {
    let errors = [
        ConnectionError::LineTooLong,
        ConnectionError::PeerClosed,
        ConnectionError::ReadFailed,
        ConnectionError::WriteFailed,
    ];
    for error in errors {
        let mut registry = Registry::new();
        registry.try_admit("bob", 9);
        let mut worker = joined(&mut registry, "alice", 1);
        let step = worker.on_failure(error, &mut registry);
        assert_eq!(
            step,
            Step { reply: None, post: Some(Event::Left("alice".to_string())), ended: Some(error) }
        );
        assert!(worker.is_terminated());
        assert!(!registry.contains("alice"));
        assert!(registry.contains("bob"));
    }
}

#[test]
fn a_terminated_worker_does_nothing() {
    let mut registry = Registry::new();
    let mut worker = joined(&mut registry, "alice", 1);
    worker.on_failure(ConnectionError::PeerClosed, &mut registry);
    registry.try_admit("alice", 5);
    let nothing = Step { reply: None, post: None, ended: None };
    assert_eq!(worker.on_frame("late".to_string(), &mut registry), nothing);
    assert_eq!(worker.on_failure(ConnectionError::ReadFailed, &mut registry), nothing);
    assert!(worker.is_terminated());
    assert!(registry.contains("alice"));
}

#[test]
fn the_framers_failures_map_onto_the_connections() {
    assert_eq!(ConnectionError::from_frame(FrameError::LineTooLong), ConnectionError::LineTooLong);
    assert_eq!(ConnectionError::from_frame(FrameError::PeerClosed), ConnectionError::PeerClosed);
    assert_eq!(ConnectionError::from_frame(FrameError::ReadFailed), ConnectionError::ReadFailed);
}

#[test]
fn every_error_has_its_description() {
    assert_eq!(ConnectionError::LineTooLong.message(), "The message is too large");
    assert_eq!(ConnectionError::PeerClosed.message(), "The client has disconnected");
    assert_eq!(ConnectionError::ReadFailed.message(), "Random error has occured");
    assert_eq!(ConnectionError::WriteFailed.message(), "Random error has occured");
    assert_eq!(
        ConnectionError::HandshakeRejected(Rejection::NameTaken).message(),
        "Invalid username"
    );
}
