use vstd::prelude::*;

verus! {

/// What a source reader observed: the end of a read of `n` bytes (0 at the
/// end of the stream), a failed read, or the shutdown broadcast.
#[derive(Clone, Copy, Debug, PartialEq, Eq, Structural)]
pub enum ReadEvent {
    Read { n: usize },
    Failed,
    Shutdown,
}

/// What the reader does next: hand the bytes it holds to the pipeline,
/// and go on reading or stop.
#[derive(Clone, Copy, Debug, PartialEq, Eq, Structural)]
pub struct ReadStep {
    pub forward: bool,
    pub go_on: bool,
}

/// The reader's decision after `event`, holding `buffered` bytes. Bytes that
/// a read delivered are forwarded even when the read then failed; the
/// reader stops at the end of the stream, on a failure, and on shutdown,
/// after which it accepts nothing more.
pub fn after_read(event: ReadEvent, buffered: usize) -> (r: ReadStep)
    ensures
        r.forward == (!(event is Shutdown) && buffered > 0),
        r.go_on == (event matches ReadEvent::Read { n } && n > 0),
{
    match event {
        ReadEvent::Read { n } => ReadStep { forward: buffered > 0, go_on: n > 0 },
        ReadEvent::Failed => ReadStep { forward: buffered > 0, go_on: false },
        ReadEvent::Shutdown => ReadStep { forward: false, go_on: false },
    }
}

} // verus!
