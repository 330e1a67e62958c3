//! The events the record assembler consumes: input lines, periodic ticks, and
//! the terminal end-of-input signal, merged by the caller into one ordered
//! stream.

use vstd::prelude::*;

verus! {

/// One event of the merged input stream.
#[derive(Debug)]
pub enum Command {
    /// One physical input line, newline-stripped.
    Line { content: String },
    /// A periodic timeout signal; carries no payload.
    Ping,
    /// Terminal signal: at most one ever occurs, always last.
    Eof,
}

/// The mathematical value of a `Command`.
pub enum Event {
    Line(Seq<char>),
    Ping,
    Eof,
}

impl View for Command {
    type V = Event;

    open spec fn view(&self) -> Event {
        match self {
            Command::Line { content } => Event::Line(content@),
            Command::Ping => Event::Ping,
            Command::Eof => Event::Eof,
        }
    }
}

} // verus!
