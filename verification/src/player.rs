use crate::errors::Error;
use vstd::prelude::*;

verus! {

/// An audio sink, implemented by the unverified output backends: a file, a
/// socket, or a sound server.  `play` starts output and is idempotent;
/// `write` blocks until the sink accepted the samples; `latency_ms` is the
/// sink's own buffering, which the scheduler clamps to at least a
/// millisecond.
pub trait Player {
    fn play(&mut self) -> Result<(), Error>;

    fn write(&mut self, buf: &mut [i16]) -> Result<(), Error>;

    fn latency_ms(&self) -> Result<u16, Error>;

    fn set_volume(&mut self, val: u8) -> Result<(), Error>;

    fn sample_rate(&self) -> u16;
}

} // verus!
