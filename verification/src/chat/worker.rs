//! The per-connection worker: `Handshaking`, then `Active`, then
//! `Terminated`.
//!
//! A worker decides; it neither reads nor writes. The caller hands it each
//! frame and each failure of its connection, together with the registry,
//! and carries out the step that comes back: it writes the reply to the
//! worker's own connection, posts the event to the channel, and closes the
//! connection where the step says that it has ended. Holding the registry's
//! lock from the call until the event is posted keeps admission, roster and
//! notice consistent.

use vstd::prelude::*;
use vstd::string::*;
use crate::chat::event::{Event, EventView};
use crate::framer::FrameError;
use crate::chat::handshake::{handshake, roster_line, verdict, REJECTION_MESSAGE, WELCOME_MESSAGE};
use crate::chat::names::Rejection;
use crate::chat::registry::{without, Member, Registry};

verus! {

/// Why a connection has ended.
#[derive(Clone, Copy, Debug, PartialEq, Eq, Structural)]
pub enum ConnectionError {
    /// A frame went over the cap.
    LineTooLong,
    /// The peer closed the connection.
    PeerClosed,
    /// A read failed.
    ReadFailed,
    /// A write to the connection failed.
    WriteFailed,
    /// The proposed name was turned down.
    HandshakeRejected(Rejection),
}

impl ConnectionError {
    /// The framer's failure as the end of the connection.
    pub open spec fn of_frame(error: FrameError) -> ConnectionError {
        match error {
            FrameError::LineTooLong => ConnectionError::LineTooLong,
            FrameError::PeerClosed => ConnectionError::PeerClosed,
            FrameError::ReadFailed => ConnectionError::ReadFailed,
        }
    }

    /// The framer's failure as the end of the connection.
    pub fn from_frame(error: FrameError) -> (e: ConnectionError)
        ensures
            e == ConnectionError::of_frame(error),
    {
        match error {
            FrameError::LineTooLong => ConnectionError::LineTooLong,
            FrameError::PeerClosed => ConnectionError::PeerClosed,
            FrameError::ReadFailed => ConnectionError::ReadFailed,
        }
    }

    /// A short description for diagnostics.
    pub fn message(&self) -> (text: &'static str)
        ensures
            text@ == match *self {
                ConnectionError::LineTooLong => "The message is too large"@,
                ConnectionError::PeerClosed => "The client has disconnected"@,
                ConnectionError::ReadFailed => "Random error has occured"@,
                ConnectionError::WriteFailed => "Random error has occured"@,
                ConnectionError::HandshakeRejected(_) => "Invalid username"@,
            },
    {
        match self {
            ConnectionError::LineTooLong => "The message is too large",
            ConnectionError::PeerClosed => "The client has disconnected",
            ConnectionError::ReadFailed => "Random error has occured",
            ConnectionError::WriteFailed => "Random error has occured",
            ConnectionError::HandshakeRejected(_) => "Invalid username",
        }
    }
}

/// Where a worker stands.
#[derive(Clone, Debug, PartialEq, Eq)]
pub enum WorkerState {
    /// The prompt is out and the name has not arrived.
    Handshaking,
    /// The member is in the room under this name.
    Active(String),
    /// The connection has ended.
    Terminated,
}

/// A worker's state as a mathematical value.
pub enum WorkerStateView {
    Handshaking,
    Active(Seq<char>),
    Terminated,
}

impl View for WorkerState {
    type V = WorkerStateView;

    open spec fn view(&self) -> WorkerStateView {
        match *self {
            WorkerState::Handshaking => WorkerStateView::Handshaking,
            WorkerState::Active(name) => WorkerStateView::Active(name@),
            WorkerState::Terminated => WorkerStateView::Terminated,
        }
    }
}

/// What the caller is to do after handing the worker a frame or a failure.
#[derive(Clone, Debug, PartialEq, Eq)]
pub struct Step {
    /// A line to write to the worker's own connection.
    pub reply: Option<String>,
    /// An event to post to the channel.
    pub post: Option<Event>,
    /// Set when the connection has ended and is to be closed.
    pub ended: Option<ConnectionError>,
}

/// A step as a mathematical value.
pub struct StepView {
    pub reply: Option<Seq<char>>,
    pub post: Option<EventView>,
    pub ended: Option<ConnectionError>,
}

impl View for Step {
    type V = StepView;

    open spec fn view(&self) -> StepView {
        StepView {
            reply: match self.reply {
                Some(line) => Some(line@),
                None => None,
            },
            post: match self.post {
                Some(event) => Some(event@),
                None => None,
            },
            ended: self.ended,
        }
    }
}

/// A transition: the worker's next state, the members of the room after it,
/// and the step for the caller.
pub struct Transition {
    pub state: WorkerStateView,
    pub members: Seq<Member>,
    pub step: StepView,
}

/// The transition on a frame.
///
/// While handshaking the frame is the proposed name: it is admitted, greeted
/// with the roster and announced, or it is turned down with the rejection
/// line and the connection ends with the room untouched. An active worker
/// posts the frame as a message. A terminated one does nothing.
pub open spec fn frame_transition(
    state: WorkerStateView,
    sink: u64,
    members: Seq<Member>,
    frame: Seq<char>,
) -> Transition {
    match state {
        WorkerStateView::Handshaking => match verdict(members, frame) {
            None => Transition {
                state: WorkerStateView::Active(frame),
                members: members.push(Member { name: frame, sink }),
                step: StepView {
                    reply: Some(roster_line(members)),
                    post: Some(EventView::Joined(frame)),
                    ended: None,
                },
            },
            Some(reason) => Transition {
                state: WorkerStateView::Terminated,
                members,
                step: StepView {
                    reply: Some(REJECTION_MESSAGE@),
                    post: None,
                    ended: Some(ConnectionError::HandshakeRejected(reason)),
                },
            },
        },
        WorkerStateView::Active(name) => Transition {
            state,
            members,
            step: StepView { reply: None, post: Some(EventView::Sent(name, frame)), ended: None },
        },
        WorkerStateView::Terminated => Transition {
            state,
            members,
            step: StepView { reply: None, post: None, ended: None },
        },
    }
}

/// The transition on a failure of the connection.
///
/// An active worker leaves the room and posts its leave. A handshaking one
/// ends without a trace: nothing is removed and nothing posted. A
/// terminated one does nothing. No failure ever posts a message.
pub open spec fn failure_transition(
    state: WorkerStateView,
    members: Seq<Member>,
    error: ConnectionError,
) -> Transition {
    match state {
        WorkerStateView::Handshaking => Transition {
            state: WorkerStateView::Terminated,
            members,
            step: StepView { reply: None, post: None, ended: Some(error) },
        },
        WorkerStateView::Active(name) => Transition {
            state: WorkerStateView::Terminated,
            members: without(members, name),
            step: StepView { reply: None, post: Some(EventView::Left(name)), ended: Some(error) },
        },
        WorkerStateView::Terminated => Transition {
            state,
            members,
            step: StepView { reply: None, post: None, ended: None },
        },
    }
}

/// No failure makes a worker speak: what it posts, if anything, is its
/// leave, and it never replies. A failure during the handshake changes
/// nothing in the room and posts nothing.
pub proof fn lemma_failure_is_silent(
    state: WorkerStateView,
    members: Seq<Member>,
    error: ConnectionError,
)
    ensures
        !(failure_transition(state, members, error).step.post matches Some(EventView::Sent(_, _))),
        !(failure_transition(state, members, error).step.post matches Some(EventView::Joined(_))),
        failure_transition(state, members, error).step.reply is None,
        failure_transition(state, members, error).state is Terminated,
        state is Handshaking ==> failure_transition(state, members, error).members == members
            && failure_transition(state, members, error).step.post is None,
{
}

/// A handshake that fails leaves the room as it was and posts nothing;
/// one that succeeds registers the name and announces it.
pub proof fn lemma_handshake_outcomes(sink: u64, members: Seq<Member>, frame: Seq<char>)
    ensures
        ({
            let t = frame_transition(WorkerStateView::Handshaking, sink, members, frame);
            if verdict(members, frame) is None {
                &&& t.state == WorkerStateView::Active(frame)
                &&& t.members == members.push(Member { name: frame, sink })
                &&& t.step.post == Some(EventView::Joined(frame))
                &&& t.step.ended is None
            } else {
                &&& t.state is Terminated
                &&& t.members == members
                &&& t.step.post is None
                &&& t.step.ended is Some
            }
        }),
{
}

/// The worker of one connection.
pub struct Worker {
    sink: u64,
    state: WorkerState,
}

/// A worker as a mathematical value.
pub struct WorkerView {
    pub sink: u64,
    pub state: WorkerStateView,
}

impl View for Worker {
    type V = WorkerView;

    closed spec fn view(&self) -> WorkerView {
        WorkerView { sink: self.sink, state: self.state@ }
    }
}

impl Worker {
    /// The worker of a new connection whose output goes to `sink`.
    pub fn new(sink: u64) -> (w: Worker)
        ensures
            w@ == (WorkerView { sink, state: WorkerStateView::Handshaking }),
    {
        Worker { sink, state: WorkerState::Handshaking }
    }

    /// The prompt to send as soon as the connection stands.
    pub fn greeting(&self) -> (line: &'static str)
        ensures
            line@ == WELCOME_MESSAGE@,
    {
        WELCOME_MESSAGE
    }

    /// The handle of the worker's sink.
    pub fn sink(&self) -> (sink: u64)
        ensures
            sink == self@.sink,
    {
        self.sink
    }

    /// Where the worker stands.
    pub fn state(&self) -> (state: &WorkerState)
        ensures
            state@ == self@.state,
    {
        &self.state
    }

    /// Whether the connection has ended.
    pub fn is_terminated(&self) -> (done: bool)
        ensures
            done == (self@.state is Terminated),
    {
        match self.state {
            WorkerState::Terminated => true,
            _ => false,
        }
    }

    /// Takes a frame from the connection, as [`frame_transition`] says.
    pub fn on_frame(&mut self, frame: String, registry: &mut Registry) -> (step: Step)
        ensures
            final(self)@.sink == old(self)@.sink,
            final(self)@.state == frame_transition(
                old(self)@.state,
                old(self)@.sink,
                old(registry)@,
                frame@,
            ).state,
            final(registry)@ == frame_transition(
                old(self)@.state,
                old(self)@.sink,
                old(registry)@,
                frame@,
            ).members,
            step@ == frame_transition(
                old(self)@.state,
                old(self)@.sink,
                old(registry)@,
                frame@,
            ).step,
    {
        match &self.state {
            WorkerState::Handshaking => {
                match handshake(registry, frame.as_str(), self.sink) {
                    Ok(admission) => {
                        self.state = WorkerState::Active(frame);
                        Step {
                            reply: Some(admission.roster),
                            post: Some(admission.joined),
                            ended: None,
                        }
                    },
                    Err(reason) => {
                        self.state = WorkerState::Terminated;
                        Step {
                            reply: Some(String::from_str(REJECTION_MESSAGE)),
                            post: None,
                            ended: Some(ConnectionError::HandshakeRejected(reason)),
                        }
                    },
                }
            },
            WorkerState::Active(name) => {
                Step { reply: None, post: Some(Event::Sent(name.clone(), frame)), ended: None }
            },
            WorkerState::Terminated => { Step { reply: None, post: None, ended: None } },
        }
    }

    /// Takes a failure of the connection, as [`failure_transition`] says.
    pub fn on_failure(&mut self, error: ConnectionError, registry: &mut Registry) -> (step: Step)
        ensures
            final(self)@.sink == old(self)@.sink,
            final(self)@.state == failure_transition(
                old(self)@.state,
                old(registry)@,
                error,
            ).state,
            final(registry)@ == failure_transition(
                old(self)@.state,
                old(registry)@,
                error,
            ).members,
            step@ == failure_transition(old(self)@.state, old(registry)@, error).step,
    {
        let mut state = WorkerState::Terminated;
        std::mem::swap(&mut self.state, &mut state);
        match state {
            WorkerState::Handshaking => { Step { reply: None, post: None, ended: Some(error) } },
            WorkerState::Active(name) => {
                registry.remove(name.as_str());
                Step { reply: None, post: Some(Event::Left(name)), ended: Some(error) }
            },
            WorkerState::Terminated => { Step { reply: None, post: None, ended: None } },
        }
    }
}

} // verus!
