use protohackers::chat::broadcast::{fan_out, Delivery};
use protohackers::chat::event::Event;
use protohackers::chat::names::Rejection;
use protohackers::chat::registry::Registry;
use protohackers::chat::worker::{ConnectionError, Step, Worker};
use protohackers::framer::{FrameError, LineFramer, Poll, ReadOutcome};

/// One client as the server sees it: its framer, its worker, and what has
/// been written to it.
struct Client {
    framer: LineFramer,
    worker: Worker,
    received: Vec<String>,
    closed: bool,
}

/// A room run in one thread: the channel is a queue that is drained after
/// every step.
struct Room {
    registry: Registry,
    channel: Vec<Event>,
    clients: Vec<Client>,
}

impl Room {
    fn new() -> Room {
        Room { registry: Registry::new(), channel: Vec::new(), clients: Vec::new() }
    }

    fn connect(&mut self) -> usize {
        let sink = self.clients.len() as u64;
        let worker = Worker::new(sink);
        let received = vec![worker.greeting().to_string()];
        self.clients.push(Client { framer: LineFramer::new(), worker, received, closed: false });
        self.clients.len() - 1
    }

    fn carry_out(&mut self, client: usize, step: Step) {
        if let Some(line) = step.reply {
            self.clients[client].received.push(line);
        }
        if let Some(event) = step.post {
            self.channel.push(event);
        }
        if step.ended.is_some() {
            self.clients[client].closed = true;
        }
    }

    fn send(&mut self, client: usize, bytes: &[u8]) -> Option<ConnectionError> {
        self.clients[client].framer.feed(ReadOutcome::Data(bytes.to_vec()));
        self.pump(client)
    }

    fn hang_up(&mut self, client: usize) -> Option<ConnectionError> {
        self.clients[client].framer.feed(ReadOutcome::Closed);
        self.pump(client)
    }

    fn pump(&mut self, client: usize) -> Option<ConnectionError> {
        loop {
            if self.clients[client].closed {
                return None;
            }
            let step = match self.clients[client].framer.poll() {
                Poll::Read(_) => return None,
                Poll::Frame(frame) => {
                    self.clients[client].worker.on_frame(frame, &mut self.registry)
                }
                Poll::Failed(error) => self.clients[client]
                    .worker
                    .on_failure(ConnectionError::from_frame(error), &mut self.registry),
            };
            let ended = step.ended;
            self.carry_out(client, step);
            if ended.is_some() {
                return ended;
            }
        }
    }

    fn broadcast(&mut self) {
        let events: Vec<Event> = self.channel.drain(..).collect();
        for event in events {
            for Delivery { sink, text, .. } in fan_out(&self.registry, &event) {
                let client = &mut self.clients[sink as usize];
                if !client.closed {
                    client.received.push(text);
                }
            }
        }
    }

    fn take(&mut self, client: usize) -> Vec<String> {
        self.clients[client].received.drain(..).collect()
    }
}

#[test]
fn the_first_client_joins_an_empty_room() {
    let mut room = Room::new();
    let a = room.connect();
    assert_eq!(room.take(a), vec!["Welcome to budgetchat! What shall I call you?\n"]);
    assert_eq!(room.send(a, b"alice\n"), None);
    room.broadcast();
    assert_eq!(room.take(a), vec!["*Welcome. Users in room: \n"]);
    assert!(room.registry.contains("alice"));
}

#[test]
fn the_second_client_sees_the_first_and_is_announced() {
    let mut room = Room::new();
    let a = room.connect();
    room.send(a, b"alice\n");
    room.broadcast();
    room.take(a);
    let b = room.connect();
    room.send(b, b"bob\n");
    room.broadcast();
    assert_eq!(
        room.take(b),
        vec![
            "Welcome to budgetchat! What shall I call you?\n",
            "*Welcome. Users in room: alice\n"
        ]
    );
    assert_eq!(room.take(a), vec!["* bob has joined the room\n"]);
}

#[test]
fn a_message_reaches_the_other_and_not_its_sender() {
    let mut room = Room::new();
    let a = room.connect();
    room.send(a, b"alice\n");
    let b = room.connect();
    room.send(b, b"bob\n");
    room.broadcast();
    room.take(a);
    room.take(b);
    room.send(a, b"hello\n");
    room.broadcast();
    assert_eq!(room.take(b), vec!["[alice] hello\n"]);
    assert_eq!(room.take(a), Vec::<String>::new());
}

#[test]
fn a_leave_is_announced_and_frees_the_name() {
    let mut room = Room::new();
    let a = room.connect();
    room.send(a, b"alice\n");
    let b = room.connect();
    room.send(b, b"bob\n");
    room.broadcast();
    room.take(a);
    room.take(b);
    assert_eq!(room.hang_up(a), Some(ConnectionError::PeerClosed));
    room.broadcast();
    assert_eq!(room.take(b), vec!["* alice has left the room\n"]);
    assert_eq!(room.take(a), Vec::<String>::new());
    assert!(!room.registry.contains("alice"));
    let c = room.connect();
    assert_eq!(room.send(c, b"alice\n"), None);
    room.broadcast();
    assert_eq!(
        room.take(c),
        vec!["Welcome to budgetchat! What shall I call you?\n", "*Welcome. Users in room: bob\n"]
    );
    assert_eq!(room.take(b), vec!["* alice has joined the room\n"]);
}

#[test]
fn of_two_claims_for_one_name_one_wins() {
    for first in [0usize, 1] {
        let mut room = Room::new();
        let x = room.connect();
        let y = room.connect();
        let order = if first == 0 { [x, y] } else { [y, x] };
        let won = room.send(order[0], b"carol\n");
        let lost = room.send(order[1], b"carol\n");
        room.broadcast();
        assert_eq!(won, None);
        assert_eq!(lost, Some(ConnectionError::HandshakeRejected(Rejection::NameTaken)));
        assert_eq!(
            room.take(order[0]),
            vec![
                "Welcome to budgetchat! What shall I call you?\n",
                "*Welcome. Users in room: \n"
            ]
        );
        assert_eq!(
            room.take(order[1]),
            vec!["Welcome to budgetchat! What shall I call you?\n", "Invalid username\n"]
        );
        assert!(room.clients[order[1]].closed);
        assert!(!room.clients[order[0]].closed);
        assert_eq!(room.registry.len(), 1);
    }
}

#[test]
fn overflow_ends_the_connection_and_sends_nothing() {
    let mut room = Room::new();
    let a = room.connect();
    room.send(a, b"alice\n");
    let b = room.connect();
    room.send(b, b"bob\n");
    room.broadcast();
    room.take(a);
    room.take(b);
    assert_eq!(room.send(a, &[b'z'; 1025]), Some(ConnectionError::LineTooLong));
    room.broadcast();
    assert_eq!(room.take(b), vec!["* alice has left the room\n"]);
    assert!(!room.registry.contains("alice"));
}

#[test]
fn overflow_during_the_handshake_leaves_no_trace() {
    let mut room = Room::new();
    let a = room.connect();
    room.send(a, b"alice\n");
    room.broadcast();
    room.take(a);
    let b = room.connect();
    assert_eq!(room.send(b, &[b'q'; 1025]), Some(ConnectionError::LineTooLong));
    room.broadcast();
    assert_eq!(room.take(a), Vec::<String>::new());
    assert_eq!(room.registry.len(), 1);
    assert_eq!(ConnectionError::from_frame(FrameError::LineTooLong), ConnectionError::LineTooLong);
}

#[test]
fn name_and_first_message_in_one_read() {
    let mut room = Room::new();
    let a = room.connect();
    room.send(a, b"alice\n");
    room.broadcast();
    room.take(a);
    let b = room.connect();
    room.send(b, b"bob\nhi all\n");
    room.broadcast();
    assert_eq!(room.take(a), vec!["* bob has joined the room\n", "[bob] hi all\n"]);
}

#[test]
fn three_members_hear_one_order() {
    let mut room = Room::new();
    let a = room.connect();
    let b = room.connect();
    let c = room.connect();
    room.send(a, b"alice\n");
    room.send(b, b"bob\n");
    room.send(c, b"carol\n");
    room.broadcast();
    room.take(a);
    room.take(b);
    room.take(c);
    room.send(a, b"one\n");
    room.send(b, b"two\n");
    room.send(a, b"three\n");
    room.broadcast();
    assert_eq!(room.take(c), vec!["[alice] one\n", "[bob] two\n", "[alice] three\n"]);
    assert_eq!(room.take(b), vec!["[alice] one\n", "[alice] three\n"]);
    assert_eq!(room.take(a), vec!["[bob] two\n"]);
}
