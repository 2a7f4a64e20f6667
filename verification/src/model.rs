use vstd::prelude::*;

verus! {

// ---------------------------------------------------------------------------
// Executable model
// ---------------------------------------------------------------------------

/// A pitch-bend amount, stored as the logical (centered) value.
///
/// On the wire a pitch bend is an unsigned 14-bit quantity in `[0, 16383]`
/// with center 8192; the logical value is the raw value minus the center,
/// so it ranges over `[-8192, 8191]` for well-formed wire values.
#[derive(Debug, Clone, Copy, PartialEq, Eq, Structural)]
pub struct PitchBend(i16);

/// A channel voice message; all byte fields are 7-bit quantities on the wire.
#[derive(Debug, Clone, PartialEq)]
pub enum ChannelMessage {
    NoteOn { note: u8, velocity: u8 },
    NoteOff { note: u8, velocity: u8 },
    PolyPressure { note: u8, pressure: u8 },
    ControlChange { controller: u8, value: u8 },
    ProgramChange { program: u8 },
    ChannelPressure { pressure: u8 },
    PitchBend { value: PitchBend },
}

/// A meta event: a non-sounding annotation embedded in a track.
///
/// Unrecognized meta types (including end-of-track, type 0x2F) are kept
/// verbatim as `Raw`.
#[derive(Debug, Clone, PartialEq)]
pub enum MetaMessage {
    TrackName(String),
    /// Microseconds per quarter note, a 24-bit quantity on the wire.
    Tempo(u32),
    /// `denominator` is the power-of-two note value (1, 2, 4, ..., 128),
    /// converted to its wire exponent when serialized.
    TimeSignature { numerator: u8, denominator: u8, clocks_per_click: u8, notes_per_quarter: u8 },
    Raw { meta_type: u8, data: Vec<u8> },
}

/// A system message: either an opaque system-exclusive payload or a meta event.
#[derive(Debug, Clone, PartialEq)]
pub enum SystemMessage {
    SysEx(Vec<u8>),
    Meta(MetaMessage),
}

/// One event payload: a channel voice message on a channel in `[0, 15]`,
/// or a system message.
#[derive(Debug, Clone, PartialEq)]
pub enum MidiEvent {
    Channel { channel: u8, message: ChannelMessage },
    System(SystemMessage),
}

/// An event tagged with its delta time: ticks since the previous event in
/// the same track (or since track start for the first event).
#[derive(Debug, Clone, PartialEq)]
pub struct TrackEvent {
    pub delta_time: u32,
    pub event: MidiEvent,
}

/// A track: its events in playback order.
#[derive(Debug, Clone, PartialEq)]
pub struct MidiTrack {
    pub events: Vec<TrackEvent>,
}

/// A decoded MIDI file: header fields and the tracks they describe.
#[derive(Debug, Clone, PartialEq)]
pub struct Midi {
    pub format: u16,
    pub tracks: Vec<MidiTrack>,
    pub time_division: u16,
}

// ---------------------------------------------------------------------------
// Spec-level model
// ---------------------------------------------------------------------------

/// Spec counterpart of `ChannelMessage`; the pitch bend is carried as its
/// logical (centered) value.
#[verifier::ext_equal]
pub ghost enum SpecChannelMessage {
    NoteOn { note: u8, velocity: u8 },
    NoteOff { note: u8, velocity: u8 },
    PolyPressure { note: u8, pressure: u8 },
    ControlChange { controller: u8, value: u8 },
    ProgramChange { program: u8 },
    ChannelPressure { pressure: u8 },
    PitchBend { value: i16 },
}

/// Spec counterpart of `MetaMessage`.
#[verifier::ext_equal]
pub ghost enum SpecMetaMessage {
    TrackName(Seq<char>),
    Tempo(u32),
    TimeSignature { numerator: u8, denominator: u8, clocks_per_click: u8, notes_per_quarter: u8 },
    Raw { meta_type: u8, data: Seq<u8> },
}

/// Spec counterpart of `SystemMessage`.
#[verifier::ext_equal]
pub ghost enum SpecSystemMessage {
    SysEx(Seq<u8>),
    Meta(SpecMetaMessage),
}

/// Spec counterpart of `MidiEvent`.
#[verifier::ext_equal]
pub ghost enum SpecMidiEvent {
    Channel { channel: u8, message: SpecChannelMessage },
    System(SpecSystemMessage),
}

/// Spec counterpart of `TrackEvent`.
#[verifier::ext_equal]
pub ghost struct SpecTrackEvent {
    pub delta_time: u32,
    pub event: SpecMidiEvent,
}

/// Spec counterpart of `MidiTrack`.
#[verifier::ext_equal]
pub ghost struct SpecMidiTrack {
    pub events: Seq<SpecTrackEvent>,
}

/// Spec counterpart of `Midi`.
#[verifier::ext_equal]
pub ghost struct SpecMidi {
    pub format: u16,
    pub tracks: Seq<SpecMidiTrack>,
    pub time_division: u16,
}

// ---------------------------------------------------------------------------
// Views
// ---------------------------------------------------------------------------

/// The logical (centered) pitch-bend value of a raw wire value: the raw
/// value minus the center, 8192.
pub open spec fn pitch_bend_from_raw(raw: int) -> int {
    raw - 8192
}

/// The raw wire value of a logical pitch-bend value: the value plus the
/// center, 8192.
pub open spec fn pitch_bend_to_raw(value: int) -> int {
    value + 8192
}

impl PitchBend {
    /// The logical (centered) value this pitch bend holds.
    pub closed spec fn view(&self) -> i16 {
        self.0
    }

    /// Builds a pitch bend from the raw wire value by subtracting the center.
    pub fn from_raw(raw: i16) -> (r: Self)
        requires
            pitch_bend_from_raw(raw as int) >= i16::MIN,
        ensures
            r@ == pitch_bend_from_raw(raw as int),
    {
        PitchBend(raw - 8192)
    }

    /// The raw wire value of this pitch bend: its logical value plus the center.
    pub fn to_raw(&self) -> (r: i16)
        requires
            pitch_bend_to_raw(self@ as int) <= i16::MAX,
        ensures
            r == pitch_bend_to_raw(self@ as int),
    {
        self.0 + 8192
    }

    /// The logical (centered) value.
    pub fn value(&self) -> (r: i16)
        ensures
            r == self@,
    {
        self.0
    }
}

impl View for ChannelMessage {
    type V = SpecChannelMessage;

    open spec fn view(&self) -> SpecChannelMessage {
        match self {
            ChannelMessage::NoteOn { note, velocity } =>
                SpecChannelMessage::NoteOn { note: *note, velocity: *velocity },
            ChannelMessage::NoteOff { note, velocity } =>
                SpecChannelMessage::NoteOff { note: *note, velocity: *velocity },
            ChannelMessage::PolyPressure { note, pressure } =>
                SpecChannelMessage::PolyPressure { note: *note, pressure: *pressure },
            ChannelMessage::ControlChange { controller, value } =>
                SpecChannelMessage::ControlChange { controller: *controller, value: *value },
            ChannelMessage::ProgramChange { program } =>
                SpecChannelMessage::ProgramChange { program: *program },
            ChannelMessage::ChannelPressure { pressure } =>
                SpecChannelMessage::ChannelPressure { pressure: *pressure },
            ChannelMessage::PitchBend { value } =>
                SpecChannelMessage::PitchBend { value: value@ },
        }
    }
}

impl View for MetaMessage {
    type V = SpecMetaMessage;

    open spec fn view(&self) -> SpecMetaMessage {
        match self {
            MetaMessage::TrackName(name) => SpecMetaMessage::TrackName(name@),
            MetaMessage::Tempo(t) => SpecMetaMessage::Tempo(*t),
            MetaMessage::TimeSignature { numerator, denominator, clocks_per_click, notes_per_quarter } =>
                SpecMetaMessage::TimeSignature {
                    numerator: *numerator,
                    denominator: *denominator,
                    clocks_per_click: *clocks_per_click,
                    notes_per_quarter: *notes_per_quarter,
                },
            MetaMessage::Raw { meta_type, data } =>
                SpecMetaMessage::Raw { meta_type: *meta_type, data: data@ },
        }
    }
}

impl View for SystemMessage {
    type V = SpecSystemMessage;

    open spec fn view(&self) -> SpecSystemMessage {
        match self {
            SystemMessage::SysEx(data) => SpecSystemMessage::SysEx(data@),
            SystemMessage::Meta(meta) => SpecSystemMessage::Meta(meta@),
        }
    }
}

impl View for MidiEvent {
    type V = SpecMidiEvent;

    open spec fn view(&self) -> SpecMidiEvent {
        match self {
            MidiEvent::Channel { channel, message } =>
                SpecMidiEvent::Channel { channel: *channel, message: message@ },
            MidiEvent::System(sys) => SpecMidiEvent::System(sys@),
        }
    }
}

impl View for TrackEvent {
    type V = SpecTrackEvent;

    open spec fn view(&self) -> SpecTrackEvent {
        SpecTrackEvent { delta_time: self.delta_time, event: self.event@ }
    }
}

impl View for MidiTrack {
    type V = SpecMidiTrack;

    open spec fn view(&self) -> SpecMidiTrack {
        SpecMidiTrack { events: self.events@.map_values(|e: TrackEvent| e@) }
    }
}

impl View for Midi {
    type V = SpecMidi;

    open spec fn view(&self) -> SpecMidi {
        SpecMidi {
            format: self.format,
            tracks: self.tracks@.map_values(|t: MidiTrack| t@),
            time_division: self.time_division,
        }
    }
}

} // verus!
