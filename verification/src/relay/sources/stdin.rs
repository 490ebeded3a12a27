//! Lines from a stream, until it ends.
use vstd::prelude::*;

use crate::relay::sources::RawEvent;
use crate::text::copy_text;

verus! {

/// The standard input.
#[derive(Debug, PartialEq, Eq)]
pub struct StdinSource {
    /// The source's name.
    pub id: String,
}

impl Default for StdinSource {
    fn default() -> (r: StdinSource)
        ensures
            r.id@ == "stdin"@,
    {
        StdinSource::new()
    }
}

impl StdinSource {
    /// The standard input, under its name.
    pub fn new() -> (r: StdinSource)
        ensures
            r.id@ == "stdin"@,
    {
        StdinSource { id: copy_text("stdin") }
    }

    /// The source's name.
    pub fn id(&self) -> (r: &str)
        ensures
            r@ == self.id@,
    {
        self.id.as_str()
    }
}

/// What happened to a reader.
#[derive(Debug)]
pub enum ReaderEvent {
    /// The relay stops.
    Shutdown,
    /// The stream has ended.
    EndOfStream,
    /// A line was read.
    Line(String),
    /// Reading failed.
    Failed,
    /// The event went out.
    Sent,
    /// Nobody takes events any more.
    Closed,
}

/// What a reader does next.
#[derive(Debug)]
pub enum ReaderAction {
    /// Read a line.
    Read,
    /// Send an event.
    Send(RawEvent),
    /// Stop, without an error.
    Stop,
    /// Stop with the error of the read.
    Fail,
}

/// What a reader does next.
pub fn run_reader(source_id: &str, event: ReaderEvent) -> (r: ReaderAction)
    ensures
        match event {
            ReaderEvent::Shutdown => r is Stop,
            ReaderEvent::EndOfStream => r is Stop,
            ReaderEvent::Line(line) => r matches ReaderAction::Send(e) && e.is_of(
                source_id@,
                line@,
            ),
            ReaderEvent::Failed => r is Fail,
            ReaderEvent::Sent => r is Read,
            ReaderEvent::Closed => r is Stop,
        },
{
    match event {
        ReaderEvent::Shutdown => ReaderAction::Stop,
        ReaderEvent::EndOfStream => ReaderAction::Stop,
        ReaderEvent::Line(line) => ReaderAction::Send(RawEvent::read_now(source_id, &line)),
        ReaderEvent::Failed => ReaderAction::Fail,
        ReaderEvent::Sent => ReaderAction::Read,
        ReaderEvent::Closed => ReaderAction::Stop,
    }
}

} // verus!
