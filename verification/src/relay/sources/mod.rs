//! Where events come from.
use vstd::prelude::*;
use vstd::utf8::*;

use crate::bytes::text_bytes;
use crate::relay::config::SourceConfig;
use crate::relay::envelope::{utc_now, Moment};
use crate::text::copy_text;

use self::log_tail::LogTailSource;
use self::stdin::StdinSource;

pub mod log_tail;
pub mod stdin;

verus! {

/// A line, as it was read.
#[derive(Debug)]
pub struct RawEvent {
    /// The name of the source.
    pub source_id: String,
    /// The line, with its end.
    pub line: Vec<u8>,
    /// When it was read.
    pub received_at: Moment,
}

impl RawEvent {
    /// The event for a line of a source.
    pub open spec fn is_of(&self, source_id: Seq<char>, line: Seq<char>) -> bool {
        &&& self.source_id@ == source_id
        &&& self.line@ == encode_utf8(line)
    }

    /// The event for a line that was just read.
    pub fn read_now(source_id: &str, line: &str) -> (r: RawEvent)
        ensures
            r.is_of(source_id@, line@),
    {
        RawEvent { source_id: copy_text(source_id), line: text_bytes(line), received_at: utc_now() }
    }
}

/// A source that a configuration describes.
pub enum BuiltSource {
    LogTail(LogTailSource),
    Stdin(StdinSource),
}

/// The source that a configuration describes.
pub fn build(cfg: &SourceConfig) -> (r: BuiltSource)
    ensures
        match *cfg {
            SourceConfig::LogTail { path, from_beginning } => {
                r matches BuiltSource::LogTail(s) && {
                    &&& s.path@ == path@
                    &&& s.from_beginning == from_beginning
                    &&& s.id@ == log_tail::source_name(path@)
                }
            },
            SourceConfig::Stdin => r matches BuiltSource::Stdin(s) && s.id@ == "stdin"@,
        },
{
    match cfg {
        SourceConfig::LogTail { path, from_beginning } => BuiltSource::LogTail(
            LogTailSource::new(copy_text(path), *from_beginning),
        ),
        SourceConfig::Stdin => BuiltSource::Stdin(StdinSource::new()),
    }
}

} // verus!
