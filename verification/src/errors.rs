use vstd::prelude::*;

verus! {

/// The error kinds a session can surface.
///
/// `Io` is produced only by unverified sinks and socket code; the protocol
/// parsers return the frame- and payload-level kinds, and the decoders
/// `DecodeFailed` / `UnsupportedCodec`.
#[derive(Copy, Clone, Debug, PartialEq, Eq, Structural)]
pub enum Error {
    Io,
    MalformedFrame,
    MalformedPayload,
    OversizedFrame,
    DecodeFailed,
    UnsupportedCodec,
}

} // verus!
