//! The events of the room and the text that each is relayed as.

use vstd::prelude::*;
use vstd::string::*;

verus! {

/// Something that happened in the room. A worker produces it; the
/// broadcaster relays it to every member but its originator.
#[derive(Clone, Debug, PartialEq, Eq)]
pub enum Event {
    /// The named member has joined.
    Joined(String),
    /// The named member has left.
    Left(String),
    /// The named member has sent the given line.
    Sent(String, String),
}

/// An event as a mathematical value.
pub enum EventView {
    Joined(Seq<char>),
    Left(Seq<char>),
    Sent(Seq<char>, Seq<char>),
}

impl EventView {
    /// The name of the member that the event comes from.
    pub open spec fn origin(self) -> Seq<char> {
        match self {
            EventView::Joined(name) => name,
            EventView::Left(name) => name,
            EventView::Sent(name, _) => name,
        }
    }

    /// The line, terminator included, that the event is relayed as.
    pub open spec fn rendered(self) -> Seq<char> {
        match self {
            EventView::Joined(name) => "* "@ + name + " has joined the room\n"@,
            EventView::Left(name) => "* "@ + name + " has left the room\n"@,
            EventView::Sent(name, text) => "["@ + name + "] "@ + text + "\n"@,
        }
    }
}

impl View for Event {
    type V = EventView;

    open spec fn view(&self) -> EventView {
        match *self {
            Event::Joined(name) => EventView::Joined(name@),
            Event::Left(name) => EventView::Left(name@),
            Event::Sent(name, text) => EventView::Sent(name@, text@),
        }
    }
}

impl Event {
    /// The name of the member that the event comes from.
    pub fn origin(&self) -> (name: &str)
        ensures
            name@ == self@.origin(),
    {
        match self {
            Event::Joined(name) => name.as_str(),
            Event::Left(name) => name.as_str(),
            Event::Sent(name, _) => name.as_str(),
        }
    }

    /// The line that the event is relayed as.
    pub fn render(&self) -> (line: String)
        ensures
            line@ == self@.rendered(),
    {
        match self {
            Event::Joined(name) => {
                let mut line = String::from_str("* ");
                line.append(name.as_str());
                line.append(" has joined the room\n");
                line
            },
            Event::Left(name) => {
                let mut line = String::from_str("* ");
                line.append(name.as_str());
                line.append(" has left the room\n");
                line
            },
            Event::Sent(name, text) => {
                let mut line = String::from_str("[");
                line.append(name.as_str());
                line.append("] ");
                line.append(text.as_str());
                line.append("\n");
                line
            },
        }
    }
}

} // verus!
