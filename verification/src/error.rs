use vstd::prelude::*;

verus! {

/// Why a byte buffer failed to decode as a Standard MIDI File.
///
/// Decoding aborts on the first failure; the variant carries enough of the
/// offending value to diagnose it.
#[derive(Debug, Clone, Copy, PartialEq, Eq, Structural)]
pub enum MidiParseError {
    /// The buffer does not start with the literal `"MThd"`, or the declared
    /// header length is not 6, or the track chunk magic is not `"MTrk"`.
    InvalidHeader,
    /// A track chunk at the given index had a bad magic.
    InvalidTrackHeader(usize),
    /// The buffer was exhausted in the middle of a read.
    UnexpectedEndOfData,
    /// An unsupported SMF format, or an unrecognized status or event-type
    /// byte, was encountered.
    InvalidFormat(u16),
    /// The header declared the given number of tracks, which must be nonzero.
    InvalidTrackCount(u16),
    /// A meta event whose type requires a fixed body size (carried here)
    /// declared a different length.
    InvalidMetaLength(u8),
    /// A data byte appeared before any status byte had been seen.
    RunningStatusWithoutPrevious,
}

} // verus!
