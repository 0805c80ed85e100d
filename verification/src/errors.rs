use vstd::prelude::*;

verus! {

/// Everything that can go wrong while parsing the container or decoding a
/// track's event stream.
///
/// Parse-time errors (`InvalidHeader`, `UnsupportedVersion`, a short read)
/// abort the whole parse; a decode-time error ends only the affected track's
/// stream.
#[derive(Debug, Clone, Copy, PartialEq, Eq)]
pub enum MidiError {
    /// The source ran out of bytes where more were required. Distinct from a
    /// track's normal end-of-track termination.
    EndOfStream,
    /// Bytes that were read as text are not valid UTF-8.
    InvalidUtf8String,
    /// A chunk magic did not match or the header length field was wrong.
    InvalidHeader,
    /// The header's format field names a version other than 0, 1 or 2.
    UnsupportedVersion,
    /// An event opcode the decoder does not support, notably SysEx.
    UnsupportedEvent,
}

} // verus!
