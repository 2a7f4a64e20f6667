use vstd::prelude::*;

use crate::error::MidiParseError;
use crate::model::{
    SpecChannelMessage, SpecMetaMessage, SpecMidi, SpecMidiEvent, SpecMidiTrack, SpecSystemMessage,
    SpecTrackEvent,
};
use crate::text::utf8_or_lossy;
use crate::vlq::{vlq_bytes, vlq_max, vlq_parse};
use vstd::utf8::encode_utf8;

verus! {

// ---------------------------------------------------------------------------
// Fixed-width big-endian numbers
// ---------------------------------------------------------------------------

/// The big-endian 16-bit value carried by two bytes.
pub open spec fn be16_val(b0: u8, b1: u8) -> u16 {
    (b0 * 256 + b1) as u16
}

/// The big-endian 32-bit value carried by four bytes.
pub open spec fn be32_val(b0: u8, b1: u8, b2: u8, b3: u8) -> u32 {
    (b0 * 0x1000000 + b1 * 0x10000 + b2 * 0x100 + b3) as u32
}

/// The two big-endian bytes of a 16-bit value.
pub open spec fn be16_bytes(v: u16) -> Seq<u8> {
    seq![(v / 256) as u8, (v % 256) as u8]
}

/// The four big-endian bytes of a 32-bit value.
pub open spec fn be32_bytes(v: u32) -> Seq<u8> {
    seq![
        (v / 0x1000000) as u8,
        ((v / 0x10000) % 256) as u8,
        ((v / 256) % 256) as u8,
        (v % 256) as u8,
    ]
}

/// Reading back the two bytes of a 16-bit value yields the value.
pub proof fn lemma_be16_round_trip(v: u16)
    ensures
        be16_val(be16_bytes(v)[0], be16_bytes(v)[1]) == v,
{
}

/// Reading back the four bytes of a 32-bit value yields the value.
pub proof fn lemma_be32_round_trip(v: u32)
    ensures
        be32_val(be32_bytes(v)[0], be32_bytes(v)[1], be32_bytes(v)[2], be32_bytes(v)[3]) == v,
{
}

// ---------------------------------------------------------------------------
// Chunk magics
// ---------------------------------------------------------------------------

/// The header chunk magic, the ASCII bytes of `"MThd"`.
pub open spec fn mthd_magic() -> Seq<u8> {
    seq![0x4Du8, 0x54u8, 0x68u8, 0x64u8]
}

/// The track chunk magic, the ASCII bytes of `"MTrk"`.
pub open spec fn mtrk_magic() -> Seq<u8> {
    seq![0x4Du8, 0x54u8, 0x72u8, 0x6Bu8]
}

// ---------------------------------------------------------------------------
// Serialization: the bytes a model value owns on the wire
// ---------------------------------------------------------------------------

/// The status byte of a channel message: the message kind in the high
/// nibble, the channel in the low nibble.
pub open spec fn channel_status(channel: u8, message: SpecChannelMessage) -> u8 {
    match message {
        SpecChannelMessage::NoteOff { .. } => 0x80u8 | channel,
        SpecChannelMessage::NoteOn { .. } => 0x90u8 | channel,
        SpecChannelMessage::PolyPressure { .. } => 0xA0u8 | channel,
        SpecChannelMessage::ControlChange { .. } => 0xB0u8 | channel,
        SpecChannelMessage::ProgramChange { .. } => 0xC0u8 | channel,
        SpecChannelMessage::ChannelPressure { .. } => 0xD0u8 | channel,
        SpecChannelMessage::PitchBend { .. } => 0xE0u8 | channel,
    }
}

/// The data bytes of a channel message, after its status byte.  A pitch
/// bend is sent as its raw wire value, low 7 bits first.
pub open spec fn channel_body_bytes(message: SpecChannelMessage) -> Seq<u8> {
    match message {
        SpecChannelMessage::NoteOff { note, velocity } => seq![note, velocity],
        SpecChannelMessage::NoteOn { note, velocity } => seq![note, velocity],
        SpecChannelMessage::PolyPressure { note, pressure } => seq![note, pressure],
        SpecChannelMessage::ControlChange { controller, value } => seq![controller, value],
        SpecChannelMessage::ProgramChange { program } => seq![program],
        SpecChannelMessage::ChannelPressure { pressure } => seq![pressure],
        SpecChannelMessage::PitchBend { value } => {
            let raw = value + 8192;
            seq![(raw % 128) as u8, ((raw / 128) % 128) as u8]
        },
    }
}

/// The wire exponent of a time-signature denominator: the denominator is
/// the power-of-two note value `2^dd`.
pub open spec fn denominator_exponent(denominator: u8) -> u8 {
    if denominator == 1 {
        0u8
    } else if denominator == 2 {
        1u8
    } else if denominator == 4 {
        2u8
    } else if denominator == 8 {
        3u8
    } else if denominator == 16 {
        4u8
    } else if denominator == 32 {
        5u8
    } else if denominator == 64 {
        6u8
    } else {
        7u8
    }
}

/// Whether a time-signature denominator is one of the supported
/// power-of-two note values.
pub open spec fn supported_denominator(denominator: u8) -> bool {
    denominator == 1 || denominator == 2 || denominator == 4 || denominator == 8 || denominator
        == 16 || denominator == 32 || denominator == 64 || denominator == 128
}

/// The bytes of a meta message after its 0xFF status byte: the meta type,
/// then a length-prefixed body.
pub open spec fn meta_body_bytes(meta: SpecMetaMessage) -> Seq<u8> {
    match meta {
        SpecMetaMessage::Tempo(tempo) => seq![
            0x51u8,
            3u8,
            ((tempo / 0x10000) % 256) as u8,
            ((tempo / 0x100) % 256) as u8,
            (tempo % 256) as u8,
        ],
        SpecMetaMessage::TrackName(name) => seq![0x03u8] + vlq_bytes(
            encode_utf8(name).len() as u32,
        ) + encode_utf8(name),
        SpecMetaMessage::Raw { meta_type, data } => seq![meta_type] + vlq_bytes(data.len() as u32)
            + data,
        SpecMetaMessage::TimeSignature { numerator, denominator, clocks_per_click, notes_per_quarter } => seq![
            0x58u8,
            4u8,
            numerator,
            denominator_exponent(denominator),
            clocks_per_click,
            notes_per_quarter,
        ],
    }
}

/// The bytes of an event payload: an explicit status byte (serialization
/// never relies on running status) followed by the body.
pub open spec fn payload_bytes(event: SpecMidiEvent) -> Seq<u8> {
    match event {
        SpecMidiEvent::Channel { channel, message } => seq![channel_status(channel, message)]
            + channel_body_bytes(message),
        SpecMidiEvent::System(SpecSystemMessage::SysEx(data)) => seq![0xF0u8] + vlq_bytes(
            data.len() as u32,
        ) + data,
        SpecMidiEvent::System(SpecSystemMessage::Meta(meta)) => seq![0xFFu8] + meta_body_bytes(
            meta,
        ),
    }
}

/// The bytes of one timed event: the delta time as a variable-length
/// quantity, then the payload.
pub open spec fn event_bytes(event: SpecTrackEvent) -> Seq<u8> {
    vlq_bytes(event.delta_time) + payload_bytes(event.event)
}

/// The bytes of a sequence of events, in order.
pub open spec fn events_bytes(events: Seq<SpecTrackEvent>) -> Seq<u8>
    decreases events.len(),
{
    if events.len() == 0 {
        Seq::empty()
    } else {
        event_bytes(events[0]) + events_bytes(events.drop_first())
    }
}

/// The body of a track chunk: its events, in order.
pub open spec fn track_body_bytes(track: SpecMidiTrack) -> Seq<u8> {
    events_bytes(track.events)
}

/// A whole track chunk: the magic, the body's byte count, the body.
pub open spec fn track_bytes(track: SpecMidiTrack) -> Seq<u8> {
    mtrk_magic() + be32_bytes(track_body_bytes(track).len() as u32) + track_body_bytes(track)
}

/// The track chunks of a file, in order.
pub open spec fn tracks_bytes(tracks: Seq<SpecMidiTrack>) -> Seq<u8>
    decreases tracks.len(),
{
    if tracks.len() == 0 {
        Seq::empty()
    } else {
        track_bytes(tracks[0]) + tracks_bytes(tracks.drop_first())
    }
}

/// A whole file: the header chunk (magic, length 6, format, track count,
/// time division), then the track chunks.
pub open spec fn midi_bytes(midi: SpecMidi) -> Seq<u8> {
    mthd_magic() + be32_bytes(6) + be16_bytes(midi.format) + be16_bytes(midi.tracks.len() as u16)
        + be16_bytes(midi.time_division) + tracks_bytes(midi.tracks)
}

/// Splitting a sequence of events splits its bytes.
pub proof fn lemma_events_bytes_append(a: Seq<SpecTrackEvent>, b: Seq<SpecTrackEvent>)
    ensures
        events_bytes(a + b) == events_bytes(a) + events_bytes(b),
    decreases a.len(),
{
    if a.len() == 0 {
        assert(a + b =~= b);
        assert(events_bytes(a) + events_bytes(b) =~= events_bytes(b));
    } else {
        assert((a + b).drop_first() =~= a.drop_first() + b);
        lemma_events_bytes_append(a.drop_first(), b);
        assert(events_bytes(a + b) =~= events_bytes(a) + events_bytes(b));
    }
}

/// Appending one event appends its bytes.
pub proof fn lemma_events_bytes_push(events: Seq<SpecTrackEvent>, event: SpecTrackEvent)
    ensures
        events_bytes(events.push(event)) == events_bytes(events) + event_bytes(event),
{
    lemma_events_bytes_append(events, seq![event]);
    assert(events.push(event) =~= events + seq![event]);
    assert(events_bytes(seq![event]) =~= event_bytes(event)) by {
        assert(seq![event].drop_first() =~= Seq::<SpecTrackEvent>::empty());
        assert(events_bytes(seq![event]) =~= event_bytes(event) + events_bytes(Seq::empty()));
    };
}

/// Appending one track appends its bytes.
pub proof fn lemma_tracks_bytes_push(tracks: Seq<SpecMidiTrack>, track: SpecMidiTrack)
    ensures
        tracks_bytes(tracks.push(track)) == tracks_bytes(tracks) + track_bytes(track),
    decreases tracks.len(),
{
    if tracks.len() == 0 {
        assert(tracks.push(track).drop_first() =~= Seq::<SpecMidiTrack>::empty());
        assert(tracks_bytes(Seq::<SpecMidiTrack>::empty()) == Seq::<u8>::empty());
        assert(tracks.push(track)[0] == track);
        assert(tracks_bytes(tracks.push(track)) =~= tracks_bytes(tracks) + track_bytes(track));
    } else {
        assert(tracks.push(track).drop_first() =~= tracks.drop_first().push(track));
        lemma_tracks_bytes_push(tracks.drop_first(), track);
        assert(tracks.push(track)[0] == tracks[0]);
        assert(tracks_bytes(tracks.push(track)) == track_bytes(tracks[0]) + tracks_bytes(
            tracks.drop_first().push(track),
        ));
        assert(tracks_bytes(tracks) == track_bytes(tracks[0]) + tracks_bytes(tracks.drop_first()));
        assert(tracks_bytes(tracks.push(track)) =~= tracks_bytes(tracks) + track_bytes(track));
    }
}

// ---------------------------------------------------------------------------
// Serializability: when writing cannot fail
// ---------------------------------------------------------------------------

/// A channel message the serializer accepts: a pitch bend must carry a
/// logical value whose raw form fits the 14-bit wire field.
pub open spec fn encodable_message(message: SpecChannelMessage) -> bool {
    match message {
        SpecChannelMessage::PitchBend { value } => -8192 <= value <= 8191,
        _ => true,
    }
}

/// A meta message the serializer accepts: length fields must fit a
/// variable-length quantity, and a time-signature denominator must be a
/// supported power of two.
pub open spec fn encodable_meta(meta: SpecMetaMessage) -> bool {
    match meta {
        SpecMetaMessage::TrackName(name) => encode_utf8(name).len() <= vlq_max(),
        SpecMetaMessage::Raw { data, .. } => data.len() <= vlq_max(),
        SpecMetaMessage::TimeSignature { denominator, .. } => supported_denominator(denominator),
        SpecMetaMessage::Tempo(_) => true,
    }
}

/// An event the serializer accepts.
pub open spec fn encodable_event(event: SpecTrackEvent) -> bool {
    event.delta_time <= vlq_max() && match event.event {
        SpecMidiEvent::Channel { message, .. } => encodable_message(message),
        SpecMidiEvent::System(SpecSystemMessage::SysEx(data)) => data.len() <= vlq_max(),
        SpecMidiEvent::System(SpecSystemMessage::Meta(meta)) => encodable_meta(meta),
    }
}

/// A track the serializer accepts: every event is serializable and the
/// body's byte count fits the 32-bit length field.
pub open spec fn encodable_track(track: SpecMidiTrack) -> bool {
    (forall|i: int| 0 <= i < track.events.len() ==> encodable_event(#[trigger] track.events[i]))
        && track_body_bytes(track).len() <= u32::MAX
}

/// A file the serializer accepts: every track is serializable and the
/// track count fits the 16-bit header field.
pub open spec fn encodable_midi(midi: SpecMidi) -> bool {
    midi.tracks.len() <= 0xFFFF && (forall|i: int|
        0 <= i < midi.tracks.len() ==> encodable_track(#[trigger] midi.tracks[i]))
}

// ---------------------------------------------------------------------------
// Parsing: the model value a byte sequence carries
// ---------------------------------------------------------------------------

/// Spec parse of a channel-message body at `pos`, the status byte already
/// consumed and resolved: the message kind is the status byte's high
/// nibble, the channel its low nibble.
pub open spec fn parse_channel_event_spec(s: Seq<u8>, pos: int, status: u8) -> Result<
    (SpecMidiEvent, int),
    MidiParseError,
> {
    let event_type = status & 0xF0u8;
    let channel = status & 0x0Fu8;
    if event_type == 0x80 {
        if pos + 2 > s.len() {
            Err(MidiParseError::UnexpectedEndOfData)
        } else {
            Ok(
                (
                    SpecMidiEvent::Channel {
                        channel,
                        message: SpecChannelMessage::NoteOff { note: s[pos], velocity: s[pos + 1] },
                    },
                    pos + 2,
                ),
            )
        }
    } else if event_type == 0x90 {
        if pos + 2 > s.len() {
            Err(MidiParseError::UnexpectedEndOfData)
        } else {
            Ok(
                (
                    SpecMidiEvent::Channel {
                        channel,
                        message: SpecChannelMessage::NoteOn { note: s[pos], velocity: s[pos + 1] },
                    },
                    pos + 2,
                ),
            )
        }
    } else if event_type == 0xA0 {
        if pos + 2 > s.len() {
            Err(MidiParseError::UnexpectedEndOfData)
        } else {
            Ok(
                (
                    SpecMidiEvent::Channel {
                        channel,
                        message: SpecChannelMessage::PolyPressure {
                            note: s[pos],
                            pressure: s[pos + 1],
                        },
                    },
                    pos + 2,
                ),
            )
        }
    } else if event_type == 0xB0 {
        if pos + 2 > s.len() {
            Err(MidiParseError::UnexpectedEndOfData)
        } else {
            Ok(
                (
                    SpecMidiEvent::Channel {
                        channel,
                        message: SpecChannelMessage::ControlChange {
                            controller: s[pos],
                            value: s[pos + 1],
                        },
                    },
                    pos + 2,
                ),
            )
        }
    } else if event_type == 0xC0 {
        if pos + 1 > s.len() {
            Err(MidiParseError::UnexpectedEndOfData)
        } else {
            Ok(
                (
                    SpecMidiEvent::Channel {
                        channel,
                        message: SpecChannelMessage::ProgramChange { program: s[pos] },
                    },
                    pos + 1,
                ),
            )
        }
    } else if event_type == 0xD0 {
        if pos + 1 > s.len() {
            Err(MidiParseError::UnexpectedEndOfData)
        } else {
            Ok(
                (
                    SpecMidiEvent::Channel {
                        channel,
                        message: SpecChannelMessage::ChannelPressure { pressure: s[pos] },
                    },
                    pos + 1,
                ),
            )
        }
    } else if event_type == 0xE0 {
        if pos + 2 > s.len() {
            Err(MidiParseError::UnexpectedEndOfData)
        } else {
            let raw = ((s[pos + 1] as i16) << 7) | (s[pos] as i16);
            Ok(
                (
                    SpecMidiEvent::Channel {
                        channel,
                        message: SpecChannelMessage::PitchBend { value: (raw - 8192) as i16 },
                    },
                    pos + 2,
                ),
            )
        }
    } else {
        Err(MidiParseError::InvalidFormat(event_type as u16))
    }
}

/// Spec parse of a meta event at `pos`, the 0xFF status byte already
/// consumed: a meta type byte, a length-prefixed body, interpreted per
/// meta type (0x51 tempo, exactly 3 bytes; 0x03 track name, lossy-decoded
/// text; anything else kept verbatim).
pub open spec fn parse_meta_spec(s: Seq<u8>, pos: int) -> Result<(SpecMidiEvent, int), MidiParseError> {
    if pos >= s.len() {
        Err(MidiParseError::UnexpectedEndOfData)
    } else {
        let meta_type = s[pos];
        match vlq_parse(s, pos + 1) {
            Err(e) => Err(e),
            Ok((length, p1)) => {
                if p1 + length > s.len() {
                    Err(MidiParseError::UnexpectedEndOfData)
                } else {
                    let data = s.subrange(p1, p1 + length);
                    if meta_type == 0x51 {
                        if length != 3 {
                            Err(MidiParseError::InvalidMetaLength(meta_type))
                        } else {
                            let tempo = (data[0] * 0x10000 + data[1] * 0x100 + data[2]) as u32;
                            Ok(
                                (
                                    SpecMidiEvent::System(
                                        SpecSystemMessage::Meta(SpecMetaMessage::Tempo(tempo)),
                                    ),
                                    p1 + length,
                                ),
                            )
                        }
                    } else if meta_type == 0x03 {
                        Ok(
                            (
                                SpecMidiEvent::System(
                                    SpecSystemMessage::Meta(
                                        SpecMetaMessage::TrackName(utf8_or_lossy(data)),
                                    ),
                                ),
                                p1 + length,
                            ),
                        )
                    } else {
                        Ok(
                            (
                                SpecMidiEvent::System(
                                    SpecSystemMessage::Meta(
                                        SpecMetaMessage::Raw { meta_type, data },
                                    ),
                                ),
                                p1 + length,
                            ),
                        )
                    }
                }
            },
        }
    }
}

/// Spec parse of a system-exclusive event at `pos`, the status byte
/// already consumed: a length-prefixed opaque payload.
pub open spec fn parse_sysex_spec(s: Seq<u8>, pos: int) -> Result<(SpecMidiEvent, int), MidiParseError> {
    match vlq_parse(s, pos) {
        Err(e) => Err(e),
        Ok((length, p1)) => {
            if p1 + length > s.len() {
                Err(MidiParseError::UnexpectedEndOfData)
            } else {
                Ok(
                    (
                        SpecMidiEvent::System(SpecSystemMessage::SysEx(s.subrange(p1, p1 + length))),
                        p1 + length,
                    ),
                )
            }
        },
    }
}

/// Spec parse of one event body at `pos` given its resolved status byte:
/// meta for 0xFF, system-exclusive for 0xF0/0xF7, channel messages below
/// 0xF0, anything else unsupported.
pub open spec fn parse_event_spec(s: Seq<u8>, pos: int, status: u8) -> Result<
    (SpecMidiEvent, int),
    MidiParseError,
> {
    if status >= 0xF0 {
        if status == 0xFF {
            parse_meta_spec(s, pos)
        } else if status == 0xF0 || status == 0xF7 {
            parse_sysex_spec(s, pos)
        } else {
            Err(MidiParseError::InvalidFormat(status as u16))
        }
    } else {
        parse_channel_event_spec(s, pos, status)
    }
}

/// Spec parse of one delta-time-tagged event at `pos` with the carried
/// running status: the delta time, then either an explicit status byte
/// (stored as the new running status when it is a channel status, cleared
/// otherwise) or a data byte that reuses the running status.  Returns the
/// event, the running status to carry, and the position after the event.
pub open spec fn parse_timed_event_spec(s: Seq<u8>, pos: int, running: Option<u8>) -> Result<
    (SpecTrackEvent, Option<u8>, int),
    MidiParseError,
> {
    match vlq_parse(s, pos) {
        Err(e) => Err(e),
        Ok((delta, p1)) => {
            if p1 >= s.len() {
                Err(MidiParseError::UnexpectedEndOfData)
            } else {
                let next = s[p1];
                if next >= 0x80 {
                    let running2: Option<u8> = if next < 0xF0 {
                        Some(next)
                    } else {
                        None
                    };
                    match parse_event_spec(s, p1 + 1, next) {
                        Err(e) => Err(e),
                        Ok((event, p2)) => Ok(
                            (SpecTrackEvent { delta_time: delta, event }, running2, p2),
                        ),
                    }
                } else {
                    match running {
                        None => Err(MidiParseError::RunningStatusWithoutPrevious),
                        Some(status) => match parse_event_spec(s, p1, status) {
                            Err(e) => Err(e),
                            Ok((event, p2)) => Ok(
                                (SpecTrackEvent { delta_time: delta, event }, running, p2),
                            ),
                        },
                    }
                }
            }
        },
    }
}

/// Spec parse of a track body: events one after another until the cursor
/// reaches `end` (an event may carry the cursor past `end`; the loop then
/// stops).  Running status is threaded through the events.
pub open spec fn parse_events_spec(s: Seq<u8>, pos: int, end: int, running: Option<u8>) -> Result<
    (Seq<SpecTrackEvent>, int),
    MidiParseError,
>
    decreases end - pos,
    via parse_events_spec_decreases
{
    if pos >= end {
        Ok((Seq::empty(), pos))
    } else {
        match parse_timed_event_spec(s, pos, running) {
            Err(e) => Err(e),
            Ok((event, running2, p2)) => {
                if p2 >= end {
                    Ok((seq![event], p2))
                } else {
                    match parse_events_spec(s, p2, end, running2) {
                        Err(e) => Err(e),
                        Ok((rest, p3)) => Ok((seq![event] + rest, p3)),
                    }
                }
            },
        }
    }
}

#[via_fn]
proof fn parse_events_spec_decreases(s: Seq<u8>, pos: int, end: int, running: Option<u8>) {
    if pos < end {
        lemma_parse_timed_event_bounds(s, pos, running);
    }
}

/// A successful event parse always advances the cursor and never carries
/// it past the end of the buffer.
pub proof fn lemma_parse_timed_event_bounds(s: Seq<u8>, pos: int, running: Option<u8>)
    ensures
        parse_timed_event_spec(s, pos, running) matches Ok((event, running2, p2)) ==> pos < p2
            <= s.len(),
{
    crate::vlq::lemma_vlq_parse_bounds(s, pos);
    if let Ok((delta, p1)) = vlq_parse(s, pos) {
        if p1 < s.len() {
            let next = s[p1];
            if next >= 0x80 {
                lemma_parse_event_bounds(s, p1 + 1, next);
            } else if let Some(status) = running {
                lemma_parse_event_bounds(s, p1, status);
            }
        }
    }
}

/// A successful event-body parse never moves the cursor backwards nor past
/// the end of the buffer.
pub proof fn lemma_parse_event_bounds(s: Seq<u8>, pos: int, status: u8)
    ensures
        parse_event_spec(s, pos, status) matches Ok((event, p2)) ==> pos <= p2 <= s.len(),
{
    crate::vlq::lemma_vlq_parse_bounds(s, pos);
    if status == 0xFF && pos < s.len() {
        crate::vlq::lemma_vlq_parse_bounds(s, pos + 1);
    }
}

/// When the declared end of a track lies beyond the buffer, events are
/// read until the buffer itself runs out: whatever error strikes first is
/// the result, and even a sequence of events that fills the buffer cleanly
/// ends with the read past its end.
pub proof fn lemma_parse_events_overrun(s: Seq<u8>, pos: int, end: int, running: Option<u8>)
    requires
        0 <= pos <= s.len(),
        s.len() < end,
    ensures
        parse_events_spec(s, pos, end, running) == (match parse_events_spec(
            s,
            pos,
            s.len() as int,
            running,
        ) {
            Ok(r) => Err::<(Seq<SpecTrackEvent>, int), MidiParseError>(
                MidiParseError::UnexpectedEndOfData,
            ),
            Err(e) => Err(e),
        }),
    decreases end - pos,
{
    lemma_parse_timed_event_bounds(s, pos, running);
    if pos < s.len() {
        match parse_timed_event_spec(s, pos, running) {
            Err(_) => {},
            Ok((event, running2, p2)) => {
                lemma_parse_events_overrun(s, p2, end, running2);
            },
        }
    }
}

/// Spec parse of a whole file: the header chunk is validated (magic,
/// length 6, format 0, a nonzero track count), then a single track chunk
/// is read — the track count is not consulted further.  The events of that
/// chunk run from its start to the end its declared length names.
pub open spec fn parse_file_spec(s: Seq<u8>) -> Result<SpecMidi, MidiParseError> {
    if 4 > s.len() {
        Err(MidiParseError::UnexpectedEndOfData)
    } else if s.subrange(0, 4) != mthd_magic() {
        Err(MidiParseError::InvalidHeader)
    } else if 8 > s.len() {
        Err(MidiParseError::UnexpectedEndOfData)
    } else if be32_val(s[4], s[5], s[6], s[7]) != 6 {
        Err(MidiParseError::InvalidHeader)
    } else if 10 > s.len() {
        Err(MidiParseError::UnexpectedEndOfData)
    } else if 12 > s.len() {
        Err(MidiParseError::UnexpectedEndOfData)
    } else if 14 > s.len() {
        Err(MidiParseError::UnexpectedEndOfData)
    } else {
        let format = be16_val(s[8], s[9]);
        let track_count = be16_val(s[10], s[11]);
        let time_division = be16_val(s[12], s[13]);
        if format != 0 {
            Err(MidiParseError::InvalidFormat(format))
        } else if track_count == 0 {
            Err(MidiParseError::InvalidTrackCount(track_count))
        } else if 18 > s.len() {
            Err(MidiParseError::UnexpectedEndOfData)
        } else if s.subrange(14, 18) != mtrk_magic() {
            Err(MidiParseError::InvalidHeader)
        } else if 22 > s.len() {
            Err(MidiParseError::UnexpectedEndOfData)
        } else {
            let track_length = be32_val(s[18], s[19], s[20], s[21]);
            match parse_events_spec(s, 22, 22 + track_length, None) {
                Err(e) => Err(e),
                Ok((events, _end)) => Ok(
                    SpecMidi {
                        format,
                        tracks: seq![SpecMidiTrack { events }],
                        time_division,
                    },
                ),
            }
        }
    }
}

} // verus!
