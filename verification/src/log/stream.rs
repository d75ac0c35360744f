//! Event streams for sequential access.
use vstd::prelude::*;
use crate::core_types::time::LogicalTime;
use crate::core_types::error::cat2;
use crate::core_types::text::{spec_decimal, usize_to_decimal};

verus! {

/// An entry of a stream: the logical time of an event.
#[derive(Debug, Clone, Copy, PartialEq, Eq, Structural)]
pub struct StreamEvent {
    pub logical_time: LogicalTime,
}

/// Sequential reader over a list of events.
pub struct EventStream {
    events: Vec<StreamEvent>,
    position: usize,
}

impl EventStream {
    /// The events of the stream.
    pub closed spec fn events(&self) -> Seq<StreamEvent> {
        self.events@
    }

    /// The position of the next event.
    pub closed spec fn position(&self) -> nat {
        self.position as nat
    }

    /// A stream at the first of `events`.
    pub fn new(events: Vec<StreamEvent>) -> (s: Self)
        ensures
            s.events() == events@,
            s.position() == 0,
    {
        EventStream { events, position: 0 }
    }

    /// The next event, advancing past it; `None` at the end.
    pub fn next(&mut self) -> (e: Option<StreamEvent>)
        ensures
            final(self).events() == old(self).events(),
            old(self).position() < old(self).events().len() ==> {
                &&& e == Some(old(self).events()[old(self).position() as int])
                &&& final(self).position() == old(self).position() + 1
            },
            old(self).position() >= old(self).events().len() ==> {
                &&& e is None
                &&& final(self).position() == old(self).position()
            },
    {
        if self.position < self.events.len() {
            let e = self.events[self.position];
            self.position = self.position + 1;
            Some(e)
        } else {
            None
        }
    }

    /// The next event without advancing.
    pub fn peek(&self) -> (e: Option<StreamEvent>)
        ensures
            self.position() < self.events().len() ==> e == Some(self.events()[self.position() as int]),
            self.position() >= self.events().len() ==> e is None,
    {
        if self.position < self.events.len() {
            Some(self.events[self.position])
        } else {
            None
        }
    }

    /// How many events are left.
    pub fn remaining(&self) -> (n: usize)
        ensures
            n == (if self.events().len() >= self.position() {
                self.events().len() - self.position()
            } else {
                0
            }),
    {
        self.events.len().saturating_sub(self.position)
    }

    /// Whether every event has been read.
    pub fn is_end(&self) -> (b: bool)
        ensures
            b == (self.position() >= self.events().len()),
    {
        self.position >= self.events.len()
    }

    /// Back to the first event.
    pub fn reset(&mut self)
        ensures
            final(self).events() == old(self).events(),
            final(self).position() == 0,
    {
        self.position = 0;
    }

    /// The number of events.
    pub fn len(&self) -> (n: usize)
        ensures
            n == self.events().len(),
    {
        self.events.len()
    }
}

/// Appends events to a stream.
pub struct StreamWriter {
    events: Vec<StreamEvent>,
}

impl StreamWriter {
    /// The events written so far.
    pub closed spec fn written(&self) -> Seq<StreamEvent> {
        self.events@
    }

    /// A writer with no events.
    pub fn new() -> (w: Self)
        ensures
            w.written().len() == 0,
    {
        StreamWriter { events: Vec::new() }
    }

    /// Appends an event.
    pub fn write(&mut self, event: StreamEvent)
        ensures
            final(self).written() == old(self).written().push(event),
    {
        self.events.push(event);
    }

    /// The events written so far.
    pub fn events(&self) -> (s: &[StreamEvent])
        ensures
            s@ == self.written(),
    {
        self.events.as_slice()
    }

    /// The events written, consuming the writer.
    pub fn finalize(self) -> (v: Vec<StreamEvent>)
        ensures
            v@ == self.written(),
    {
        self.events
    }
}

impl Default for StreamWriter {
    fn default() -> (w: Self)
        ensures
            w.written().len() == 0,
    {
        StreamWriter::new()
    }
}

/// Stream errors.
#[derive(Debug, Clone, Copy, PartialEq, Eq, Structural)]
pub enum StreamError {
    InvalidPosition { position: usize },
    EventNotFound,
}

impl StreamError {
    /// The error message.
    pub fn to_string(&self) -> (s: String)
        ensures
            s@ == match *self {
                StreamError::InvalidPosition { position } => "Invalid position: "@ + spec_decimal(position as nat),
                StreamError::EventNotFound => "Event not found"@,
            },
    {
        match self {
            StreamError::InvalidPosition { position } => {
                let d = usize_to_decimal(*position);
                cat2("Invalid position: ", d.as_str())
            },
            StreamError::EventNotFound => "Event not found".to_owned(),
        }
    }
}

} // verus!
