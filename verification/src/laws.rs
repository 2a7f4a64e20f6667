use vstd::prelude::*;

use crate::error::MidiParseError;
use crate::model::{
    pitch_bend_from_raw, pitch_bend_to_raw, SpecChannelMessage, SpecMetaMessage, SpecMidi,
    SpecMidiEvent, SpecMidiTrack, SpecSystemMessage, SpecTrackEvent,
};
use crate::vlq::{lemma_vlq_round_trip, vlq_bytes, vlq_max, vlq_parse};
use crate::wire::{
    be16_bytes, be16_val, be32_bytes, be32_val, channel_status, event_bytes, events_bytes,
    lemma_be16_round_trip, lemma_be32_round_trip, meta_body_bytes, midi_bytes, mthd_magic,
    mtrk_magic, parse_channel_event_spec, parse_event_spec, parse_events_spec, parse_file_spec,
    parse_meta_spec, parse_sysex_spec, parse_timed_event_spec, payload_bytes, track_body_bytes,
    track_bytes, tracks_bytes,
};
use vstd::utf8::{encode_utf8, encode_utf8_decode_utf8, encode_utf8_valid_utf8};

verus! {

// ---------------------------------------------------------------------------
// The values that survive a decode-encode-decode cycle
// ---------------------------------------------------------------------------

/// A channel message whose serialization parses back to itself: the
/// channel and all data fields must be the 7-bit quantities the wire
/// format reserves for them (a data byte with its high bit set would be
/// mistaken for a status byte on the way back).
pub open spec fn round_trippable_message(channel: u8, message: SpecChannelMessage) -> bool {
    channel < 16 && match message {
        SpecChannelMessage::NoteOn { note, velocity } => note < 128 && velocity < 128,
        SpecChannelMessage::NoteOff { note, velocity } => note < 128 && velocity < 128,
        SpecChannelMessage::PolyPressure { note, pressure } => note < 128 && pressure < 128,
        SpecChannelMessage::ControlChange { controller, value } => controller < 128 && value < 128,
        SpecChannelMessage::ProgramChange { program } => program < 128,
        SpecChannelMessage::ChannelPressure { pressure } => pressure < 128,
        SpecChannelMessage::PitchBend { value } => -8192 <= value <= 8191,
    }
}

/// A meta message whose serialization parses back to itself.  A tempo must
/// fit its 24-bit field; a raw meta body must not use the types the parser
/// interprets (tempo, track name); a time signature never survives, since
/// the parser keeps its meta type verbatim rather than rebuilding the
/// variant.
pub open spec fn round_trippable_meta(meta: SpecMetaMessage) -> bool {
    match meta {
        SpecMetaMessage::Tempo(tempo) => tempo < 0x1000000,
        SpecMetaMessage::TrackName(name) => encode_utf8(name).len() <= vlq_max(),
        SpecMetaMessage::Raw { meta_type, data } => meta_type != 0x51 && meta_type != 0x03
            && data.len() <= vlq_max(),
        SpecMetaMessage::TimeSignature { .. } => false,
    }
}

/// An event whose serialization parses back to itself.
pub open spec fn round_trippable_event(event: SpecTrackEvent) -> bool {
    event.delta_time <= vlq_max() && match event.event {
        SpecMidiEvent::Channel { channel, message } => round_trippable_message(channel, message),
        SpecMidiEvent::System(SpecSystemMessage::SysEx(data)) => data.len() <= vlq_max(),
        SpecMidiEvent::System(SpecSystemMessage::Meta(meta)) => round_trippable_meta(meta),
    }
}

/// A file whose serialization decodes back to itself: format 0 with
/// exactly one track (the decoder reads a single track chunk), every event
/// round-trippable, and a track body that fits its 32-bit length field.
pub open spec fn round_trippable_midi(midi: SpecMidi) -> bool {
    midi.format == 0 && midi.tracks.len() == 1 && (forall|i: int|
        0 <= i < midi.tracks[0].events.len() ==> round_trippable_event(
            #[trigger] midi.tracks[0].events[i],
        )) && track_body_bytes(midi.tracks[0]).len() <= u32::MAX
}

/// The running status a decoded event leaves behind: a channel event's
/// status byte, or nothing after a system event.
pub open spec fn next_running_of(event: SpecMidiEvent) -> Option<u8> {
    match event {
        SpecMidiEvent::Channel { channel, message } => Some(channel_status(channel, message)),
        SpecMidiEvent::System(_) => None,
    }
}

// ---------------------------------------------------------------------------
// Small facts
// ---------------------------------------------------------------------------

/// A subrange of a subrange reads the same bytes as the outer sequence.
proof fn lemma_subrange_of_subrange(s: Seq<u8>, pos: int, n: int, a: int, b: int)
    requires
        0 <= pos,
        pos + n <= s.len(),
        0 <= a <= b <= n,
    ensures
        s.subrange(pos + a, pos + b) == s.subrange(pos, pos + n).subrange(a, b),
{
    assert(s.subrange(pos + a, pos + b) =~= s.subrange(pos, pos + n).subrange(a, b));
}

/// Status bytes built from a channel-message nibble and a channel split
/// back into their nibbles.
proof fn lemma_status_nibbles(base: u8, ch: u8)
    requires
        ch < 16,
        base == 0x80 || base == 0x90 || base == 0xA0 || base == 0xB0 || base == 0xC0 || base
            == 0xD0 || base == 0xE0,
    ensures
        ((base | ch) & 0xF0) == base,
        ((base | ch) & 0x0F) == ch,
        (base | ch) >= 0x80,
        (base | ch) < 0xF0,
{
    assert((ch < 16 && (base == 0x80 || base == 0x90 || base == 0xA0 || base == 0xB0 || base
        == 0xC0 || base == 0xD0 || base == 0xE0)) ==> (((base | ch) & 0xF0) == base && ((base | ch)
        & 0x0F) == ch && (base | ch) >= 0x80 && (base | ch) < 0xF0)) by (bit_vector);
}

/// Recombining a pitch bend's two 7-bit bytes yields the raw value.
proof fn lemma_pitch_bend_bytes(l: u8, h: u8)
    requires
        l < 128,
        h < 128,
    ensures
        (((h as i16) << 7) | (l as i16)) == h * 128 + l,
{
    assert((l < 128 && h < 128) ==> ((((h as i16) << 7) | (l as i16)) == (h as i16) * 128 + (
    l as i16))) by (bit_vector);
}

/// Recombining a tempo's three bytes yields the 24-bit value.
proof fn lemma_tempo_bytes(tempo: u32)
    requires
        tempo < 0x1000000,
    ensures
        ((tempo / 0x10000) % 256) * 0x10000 + ((tempo / 0x100) % 256) * 0x100 + (tempo % 256)
            == tempo,
{
    assert(tempo == (tempo / 0x100) * 0x100 + tempo % 0x100);
    assert(tempo / 0x100 == ((tempo / 0x100) / 0x100) * 0x100 + (tempo / 0x100) % 0x100);
    assert((tempo / 0x100) / 0x100 == tempo / 0x10000);
    assert(tempo / 0x10000 < 0x100);
    assert(tempo == ((tempo / 0x10000) * 0x100 + (tempo / 0x100) % 0x100) * 0x100 + tempo % 0x100)
        by (nonlinear_arith)
        requires
            tempo == (tempo / 0x100) * 0x100 + tempo % 0x100,
            tempo / 0x100 == (tempo / 0x10000) * 0x100 + (tempo / 0x100) % 0x100,
    ;
    assert(((tempo / 0x10000) * 0x100 + (tempo / 0x100) % 0x100) * 0x100 == (tempo / 0x10000)
        * 0x10000 + ((tempo / 0x100) % 0x100) * 0x100) by (nonlinear_arith);
}

/// A singleton parse of a one-byte variable-length quantity.
proof fn lemma_vlq_single_byte(s: Seq<u8>, pos: int)
    requires
        0 <= pos < s.len(),
        s[pos] < 128,
    ensures
        vlq_parse(s, pos) == Ok::<(u32, int), MidiParseError>((s[pos] as u32, pos + 1)),
{
    assert(vlq_parse(s, pos) == crate::vlq::vlq_parse_step(s, pos, 0, 4));
}

// ---------------------------------------------------------------------------
// Round trip, event payloads
// ---------------------------------------------------------------------------

/// Parsing the serialized payload of a round-trippable event, after its
/// status byte, yields the event back and stops exactly past the payload;
/// the status byte itself is the payload's first byte.
#[verifier::rlimit(100)]
#[verifier::spinoff_prover]
proof fn lemma_payload_round_trip(s: Seq<u8>, pos: int, event: SpecMidiEvent)
    requires
        (match event {
            SpecMidiEvent::Channel { channel, message } => round_trippable_message(
                channel,
                message,
            ),
            SpecMidiEvent::System(SpecSystemMessage::SysEx(data)) => data.len() <= vlq_max(),
            SpecMidiEvent::System(SpecSystemMessage::Meta(meta)) => round_trippable_meta(meta),
        }),
        0 <= pos,
        pos + payload_bytes(event).len() <= s.len(),
        s.subrange(pos, pos + payload_bytes(event).len()) == payload_bytes(event),
    ensures
        ({
            let pb = payload_bytes(event);
            s[pos] == pb[0] && pb[0] >= 0x80 && (pb[0] < 0xF0 <==> event is Channel)
            && parse_event_spec(s, pos + 1, pb[0]) == Ok::<(SpecMidiEvent, int), MidiParseError>(
                (event, pos + pb.len()),
            )
        }),
{
    let pb = payload_bytes(event);
    let n = pb.len() as int;
    assert(s[pos] == pb[0]) by {
        assert(s.subrange(pos, pos + n)[0] == pb[0]);
    };
    assert(forall|k: int| 0 <= k < n ==> s[pos + k] == #[trigger] pb[k]) by {
        assert(forall|k: int| 0 <= k < n ==> s.subrange(pos, pos + n)[k] == #[trigger] pb[k]);
    };
    match event {
        SpecMidiEvent::Channel { channel, message } => {
            match message {
                SpecChannelMessage::NoteOff { note, velocity } => {
                    lemma_status_nibbles(0x80, channel);
                    let st = 0x80u8 | channel;
                    assert(pb =~= seq![st, note, velocity]);
                    assert(parse_channel_event_spec(s, pos + 1, st) == Ok::<
                        (SpecMidiEvent, int),
                        MidiParseError,
                    >((event, pos + 3)));
                },
                SpecChannelMessage::NoteOn { note, velocity } => {
                    lemma_status_nibbles(0x90, channel);
                    let st = 0x90u8 | channel;
                    assert(pb =~= seq![st, note, velocity]);
                    assert(parse_channel_event_spec(s, pos + 1, st) == Ok::<
                        (SpecMidiEvent, int),
                        MidiParseError,
                    >((event, pos + 3)));
                },
                SpecChannelMessage::PolyPressure { note, pressure } => {
                    lemma_status_nibbles(0xA0, channel);
                    let st = 0xA0u8 | channel;
                    assert(pb =~= seq![st, note, pressure]);
                    assert(parse_channel_event_spec(s, pos + 1, st) == Ok::<
                        (SpecMidiEvent, int),
                        MidiParseError,
                    >((event, pos + 3)));
                },
                SpecChannelMessage::ControlChange { controller, value } => {
                    lemma_status_nibbles(0xB0, channel);
                    let st = 0xB0u8 | channel;
                    assert(pb =~= seq![st, controller, value]);
                    assert(parse_channel_event_spec(s, pos + 1, st) == Ok::<
                        (SpecMidiEvent, int),
                        MidiParseError,
                    >((event, pos + 3)));
                },
                SpecChannelMessage::ProgramChange { program } => {
                    lemma_status_nibbles(0xC0, channel);
                    let st = 0xC0u8 | channel;
                    assert(pb =~= seq![st, program]);
                    assert(parse_channel_event_spec(s, pos + 1, st) == Ok::<
                        (SpecMidiEvent, int),
                        MidiParseError,
                    >((event, pos + 2)));
                },
                SpecChannelMessage::ChannelPressure { pressure } => {
                    lemma_status_nibbles(0xD0, channel);
                    let st = 0xD0u8 | channel;
                    assert(pb =~= seq![st, pressure]);
                    assert(parse_channel_event_spec(s, pos + 1, st) == Ok::<
                        (SpecMidiEvent, int),
                        MidiParseError,
                    >((event, pos + 2)));
                },
                SpecChannelMessage::PitchBend { value } => {
                    lemma_status_nibbles(0xE0, channel);
                    let st = 0xE0u8 | channel;
                    let raw = value + 8192;
                    let l = (raw % 128) as u8;
                    let h = ((raw / 128) % 128) as u8;
                    assert(pb =~= seq![st, l, h]);
                    assert(raw / 128 < 128);
                    lemma_pitch_bend_bytes(l, h);
                    assert(h * 128 + l == raw);
                    assert(parse_channel_event_spec(s, pos + 1, st) == Ok::<
                        (SpecMidiEvent, int),
                        MidiParseError,
                    >((event, pos + 3)));
                },
            }
        },
        SpecMidiEvent::System(SpecSystemMessage::SysEx(data)) => {
            assert(pb[0] == 0xF0);
            let lb = vlq_bytes(data.len() as u32);
            assert(pb =~= seq![0xF0u8] + lb + data);
            lemma_subrange_of_subrange(s, pos, n, 1, 1 + lb.len() as int);
            assert(s.subrange(pos + 1, pos + 1 + lb.len() as int) =~= lb);
            lemma_vlq_round_trip(s, pos + 1, data.len() as u32);
            let p2 = pos + 1 + lb.len() as int;
            lemma_subrange_of_subrange(s, pos, n, 1 + lb.len() as int, n);
            assert(s.subrange(p2, pos + n) =~= data);
            assert(parse_sysex_spec(s, pos + 1) == Ok::<(SpecMidiEvent, int), MidiParseError>((
                event,
                pos + n,
            )));
        },
        SpecMidiEvent::System(SpecSystemMessage::Meta(meta)) => {
            assert(pb[0] == 0xFF);
            let mb = meta_body_bytes(meta);
            assert(pb =~= seq![0xFFu8] + mb);
            assert forall|k: int| 0 <= k < mb.len() implies s[pos + 1 + k] == #[trigger] mb[k] by {
                assert(pb[1 + k] == mb[k]);
                assert(s[pos + (1 + k)] == pb[1 + k]);
            };
            let mt = mb[0];
            assert(s[pos + 1] == mt);
            match meta {
                SpecMetaMessage::Tempo(tempo) => {
                    assert(mt == 0x51);
                    assert(s[pos + 2] == 3);
                    lemma_vlq_single_byte(s, pos + 2);
                    let data = s.subrange(pos + 3, pos + 6);
                    assert(data =~= seq![mb[2], mb[3], mb[4]]);
                    lemma_tempo_bytes(tempo);
                    assert(data[0] * 0x10000 + data[1] * 0x100 + data[2] == tempo);
                    assert(parse_meta_spec(s, pos + 1) == Ok::<
                        (SpecMidiEvent, int),
                        MidiParseError,
                    >((event, pos + 6)));
                },
                SpecMetaMessage::TrackName(name) => {
                    assert(mt == 0x03);
                    let bytes = encode_utf8(name);
                    let lb = vlq_bytes(bytes.len() as u32);
                    assert(mb =~= seq![0x03u8] + lb + bytes);
                    lemma_subrange_of_subrange(s, pos, n, 2, 2 + lb.len() as int);
                    assert(pb.subrange(2, 2 + lb.len() as int) =~= lb);
                    assert(s.subrange(pos + 2, pos + 2 + lb.len() as int) =~= lb);
                    lemma_vlq_round_trip(s, pos + 2, bytes.len() as u32);
                    let p2 = pos + 2 + lb.len() as int;
                    lemma_subrange_of_subrange(s, pos, n, 2 + lb.len() as int, n);
                    assert(s.subrange(p2, pos + n) =~= bytes);
                    encode_utf8_valid_utf8(name);
                    encode_utf8_decode_utf8(name);
                    assert(crate::text::utf8_or_lossy(bytes) == name);
                    assert(parse_meta_spec(s, pos + 1) == Ok::<
                        (SpecMidiEvent, int),
                        MidiParseError,
                    >((event, pos + n)));
                },
                SpecMetaMessage::Raw { meta_type, data } => {
                    assert(mt == meta_type);
                    let lb = vlq_bytes(data.len() as u32);
                    assert(mb =~= seq![meta_type] + lb + data);
                    lemma_subrange_of_subrange(s, pos, n, 2, 2 + lb.len() as int);
                    assert(pb.subrange(2, 2 + lb.len() as int) =~= lb);
                    assert(s.subrange(pos + 2, pos + 2 + lb.len() as int) =~= lb);
                    lemma_vlq_round_trip(s, pos + 2, data.len() as u32);
                    let p2 = pos + 2 + lb.len() as int;
                    lemma_subrange_of_subrange(s, pos, n, 2 + lb.len() as int, n);
                    assert(s.subrange(p2, pos + n) =~= data);
                    assert(parse_meta_spec(s, pos + 1) == Ok::<
                        (SpecMidiEvent, int),
                        MidiParseError,
                    >((event, pos + n)));
                },
                SpecMetaMessage::TimeSignature { .. } => {
                    assert(false);
                },
            }
        },
    }
}

// ---------------------------------------------------------------------------
// Round trip, timed events and event sequences
// ---------------------------------------------------------------------------

/// Parsing the serialization of a round-trippable timed event yields the
/// event back, leaves the running status its payload dictates, and stops
/// exactly past its bytes — whatever running status was carried in.
proof fn lemma_timed_event_round_trip(s: Seq<u8>, pos: int, event: SpecTrackEvent, running: Option<u8>)
    requires
        round_trippable_event(event),
        0 <= pos,
        pos + event_bytes(event).len() <= s.len(),
        s.subrange(pos, pos + event_bytes(event).len()) == event_bytes(event),
    ensures
        parse_timed_event_spec(s, pos, running) == Ok::<
            (SpecTrackEvent, Option<u8>, int),
            MidiParseError,
        >((event, next_running_of(event.event), pos + event_bytes(event).len())),
{
    let eb = event_bytes(event);
    let db = vlq_bytes(event.delta_time);
    let pb = payload_bytes(event.event);
    let n = eb.len() as int;
    assert(eb == db + pb);
    lemma_subrange_of_subrange(s, pos, n, 0, db.len() as int);
    assert(eb.subrange(0, db.len() as int) =~= db);
    assert(s.subrange(pos, pos + db.len() as int) =~= db);
    lemma_vlq_round_trip(s, pos, event.delta_time);
    let p1 = pos + db.len() as int;
    lemma_subrange_of_subrange(s, pos, n, db.len() as int, n);
    assert(eb.subrange(db.len() as int, n) =~= pb);
    assert(s.subrange(p1, pos + n) =~= pb);
    lemma_payload_round_trip(s, p1, event.event);
    assert(s[p1] == pb[0]);
}

/// Parsing the serialization of a sequence of round-trippable events, with
/// the end set exactly past their bytes, yields the events back.
proof fn lemma_events_round_trip(
    s: Seq<u8>,
    pos: int,
    end: int,
    events: Seq<SpecTrackEvent>,
    running: Option<u8>,
)
    requires
        forall|i: int| 0 <= i < events.len() ==> round_trippable_event(#[trigger] events[i]),
        0 <= pos,
        end == pos + events_bytes(events).len(),
        end <= s.len(),
        s.subrange(pos, end) == events_bytes(events),
    ensures
        parse_events_spec(s, pos, end, running) == Ok::<(Seq<SpecTrackEvent>, int), MidiParseError>(
            (events, end),
        ),
    decreases events.len(),
{
    if events.len() == 0 {
        assert(events_bytes(events).len() == 0);
        assert(events =~= Seq::<SpecTrackEvent>::empty());
    } else {
        let e0 = events[0];
        let rest = events.drop_first();
        let b0 = event_bytes(e0);
        let bb = events_bytes(events);
        assert(bb == b0 + events_bytes(rest));
        let n = bb.len() as int;
        lemma_subrange_of_subrange(s, pos, n, 0, b0.len() as int);
        assert(bb.subrange(0, b0.len() as int) =~= b0);
        assert(s.subrange(pos, pos + b0.len() as int) =~= b0);
        lemma_timed_event_round_trip(s, pos, e0, running);
        let p2 = pos + b0.len() as int;
        assert(parse_timed_event_spec(s, pos, running) == Ok::<
            (SpecTrackEvent, Option<u8>, int),
            MidiParseError,
        >((e0, next_running_of(e0.event), p2)));
        lemma_subrange_of_subrange(s, pos, n, b0.len() as int, n);
        assert(bb.subrange(b0.len() as int, n) =~= events_bytes(rest));
        assert(s.subrange(p2, end) =~= events_bytes(rest));
        lemma_events_round_trip(s, p2, end, rest, next_running_of(e0.event));
        if p2 >= end {
            assert(events_bytes(rest).len() == 0);
            assert(rest.len() == 0) by {
                if rest.len() > 0 {
                    assert(events_bytes(rest) == event_bytes(rest[0]) + events_bytes(
                        rest.drop_first(),
                    ));
                    crate::vlq::lemma_vlq_bytes_len(rest[0].delta_time);
                    assert(event_bytes(rest[0]).len() > 0);
                }
            };
            assert(events =~= seq![e0]);
        } else {
            assert(seq![e0] + rest =~= events);
        }
    }
}

// ---------------------------------------------------------------------------
// The laws
// ---------------------------------------------------------------------------

/// Decoding inverts encoding: serializing a round-trippable file and
/// parsing the bytes back yields the same file.  (Hand-authored files may
/// use running-status compression, which serialization never emits, so the
/// law runs decode-encode-decode rather than promising byte identity.)
pub proof fn lemma_decode_encode_round_trip(midi: SpecMidi)
    requires
        round_trippable_midi(midi),
    ensures
        parse_file_spec(midi_bytes(midi)) == Ok::<SpecMidi, MidiParseError>(midi),
{
    let s = midi_bytes(midi);
    let t0 = midi.tracks[0];
    let body = track_body_bytes(t0);
    let bl = body.len() as u32;
    assert(midi.tracks =~= seq![t0]);
    assert(tracks_bytes(midi.tracks) =~= track_bytes(t0)) by {
        assert(midi.tracks.drop_first() =~= Seq::<SpecMidiTrack>::empty());
        assert(tracks_bytes(Seq::<SpecMidiTrack>::empty()) == Seq::<u8>::empty());
        assert(tracks_bytes(midi.tracks) =~= track_bytes(midi.tracks[0]) + Seq::<u8>::empty());
    };
    let header = mthd_magic() + be32_bytes(6) + be16_bytes(midi.format) + be16_bytes(
        midi.tracks.len() as u16,
    ) + be16_bytes(midi.time_division);
    assert(s == header + (mtrk_magic() + be32_bytes(bl) + body));
    assert(header.len() == 14);
    assert(s.len() == 22 + body.len());

    assert(s.subrange(0, 4) =~= mthd_magic());
    assert(s[4] == be32_bytes(6)[0] && s[5] == be32_bytes(6)[1] && s[6] == be32_bytes(6)[2] && s[7]
        == be32_bytes(6)[3]);
    lemma_be32_round_trip(6);
    assert(be32_val(s[4], s[5], s[6], s[7]) == 6);

    assert(s[8] == be16_bytes(midi.format)[0] && s[9] == be16_bytes(midi.format)[1]);
    lemma_be16_round_trip(midi.format);
    assert(be16_val(s[8], s[9]) == midi.format);

    let tc = midi.tracks.len() as u16;
    assert(tc == 1);
    assert(s[10] == be16_bytes(tc)[0] && s[11] == be16_bytes(tc)[1]);
    lemma_be16_round_trip(tc);
    assert(be16_val(s[10], s[11]) == 1);

    assert(s[12] == be16_bytes(midi.time_division)[0] && s[13] == be16_bytes(midi.time_division)[1]);
    lemma_be16_round_trip(midi.time_division);
    assert(be16_val(s[12], s[13]) == midi.time_division);

    assert(s.subrange(14, 18) =~= mtrk_magic());

    assert(s[18] == be32_bytes(bl)[0] && s[19] == be32_bytes(bl)[1] && s[20] == be32_bytes(bl)[2]
        && s[21] == be32_bytes(bl)[3]);
    lemma_be32_round_trip(bl);
    assert(be32_val(s[18], s[19], s[20], s[21]) == bl);

    let end = 22 + bl as int;
    assert(end == s.len());
    assert(s.subrange(22, end) =~= body);
    lemma_events_round_trip(s, 22, end, t0.events, None);

    assert(parse_file_spec(s) matches Ok(m2) && m2 =~~= midi) by {
        assert(SpecMidiTrack { events: t0.events } =~= t0);
    };
}

/// Encoding then decoding a variable-length quantity is the identity for
/// every value up to the 4-byte cap (in particular at the 7-bit group
/// boundaries), and decoding consumes exactly the encoding.
pub proof fn lemma_vlq_identity(v: u32)
    requires
        v <= vlq_max(),
    ensures
        vlq_parse(vlq_bytes(v), 0) == Ok::<(u32, int), MidiParseError>((
            v,
            vlq_bytes(v).len() as int,
        )),
{
    let b = vlq_bytes(v);
    assert(b.subrange(0, b.len() as int) =~= b);
    lemma_vlq_round_trip(b, 0, v);
}

/// Raw-to-logical pitch-bend conversion and back is the identity on the
/// 14-bit wire range, and lands in the logical range.
pub proof fn lemma_pitch_bend_identity(raw: int)
    requires
        0 <= raw <= 16383,
    ensures
        pitch_bend_to_raw(pitch_bend_from_raw(raw)) == raw,
        -8192 <= pitch_bend_from_raw(raw) <= 8191,
{
}

} // verus!

