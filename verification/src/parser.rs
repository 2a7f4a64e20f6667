use vstd::prelude::*;

use crate::error::MidiParseError;
use crate::model::{
    ChannelMessage, MetaMessage, Midi, MidiEvent, MidiTrack, PitchBend, SpecMidi, SpecMidiEvent,
    SpecTrackEvent, SystemMessage, TrackEvent,
};
use crate::reader::MidiParser;
use crate::text::bytes_to_text;
use crate::wire::{
    parse_event_spec, parse_events_spec, parse_file_spec, parse_meta_spec, parse_sysex_spec,
    parse_timed_event_spec,
};

verus! {

/// Decodes a meta event, the 0xFF status byte already consumed: the meta
/// type byte, a variable-length body length, that many raw bytes, then the
/// body interpreted per meta type.
pub fn parse_meta_event(reader: &mut MidiParser) -> (r: Result<MidiEvent, MidiParseError>)
    ensures
        final(reader).data == old(reader).data,
        match r {
            Ok(event) => parse_meta_spec(old(reader).data@, old(reader).position as int) == Ok::<
                (SpecMidiEvent, int),
                MidiParseError,
            >((event@, final(reader).position as int)),
            Err(e) => parse_meta_spec(old(reader).data@, old(reader).position as int) == Err::<
                (SpecMidiEvent, int),
                MidiParseError,
            >(e),
        },
{
    let ghost s = reader.data@;
    let ghost pos0 = reader.position as int;
    let meta_type = match reader.read_u8_be() {
        Ok(b) => b,
        Err(e) => {
            return Err(e);
        },
    };
    let length = match reader.read_vlq() {
        Ok(v) => v,
        Err(e) => {
            return Err(e);
        },
    } as usize;
    let ghost p1 = reader.position as int;

    let mut data: Vec<u8> = Vec::new();
    let mut i: usize = 0;
    while i < length
        invariant
            reader.data == old(reader).data,
            reader.data@ == s,
            s == old(reader).data@,
            pos0 == old(reader).position as int,
            0 <= pos0 < s.len(),
            meta_type == s[pos0],
            crate::vlq::vlq_parse(s, pos0 + 1) == Ok::<(u32, int), MidiParseError>((
                length as u32,
                p1,
            )),
            i <= length,
            length <= u32::MAX,
            0 <= p1,
            reader.position == p1 + i,
            p1 + i <= s.len(),
            data@ == s.subrange(p1, p1 + i),
        decreases length - i,
    {
        let b = match reader.read_u8_be() {
            Ok(b) => b,
            Err(e) => {
                proof {
                    assert(p1 + length > s.len());
                    assert(parse_meta_spec(s, pos0) == Err::<(SpecMidiEvent, int), MidiParseError>(
                        MidiParseError::UnexpectedEndOfData,
                    ));
                }
                return Err(e);
            },
        };
        data.push(b);
        proof {
            assert(data@ =~= s.subrange(p1, p1 + i + 1));
        }
        i += 1;
    }
    proof {
        assert(data@ == s.subrange(p1, p1 + length));
    }

    let meta = match meta_type {
        0x2F => MetaMessage::Raw { meta_type, data },
        0x51 => {
            if data.len() != 3 {
                return Err(MidiParseError::InvalidMetaLength(meta_type));
            }
            let tempo = (data[0] as u32) * 0x10000 + (data[1] as u32) * 0x100 + (data[2] as u32);
            MetaMessage::Tempo(tempo)
        },
        0x03 => {
            let name = bytes_to_text(&data);
            MetaMessage::TrackName(name)
        },
        _ => MetaMessage::Raw { meta_type, data },
    };

    Ok(MidiEvent::System(SystemMessage::Meta(meta)))
}

/// Decodes a system-exclusive event, the status byte already consumed: a
/// variable-length body length, then that many opaque bytes.
pub fn parse_sysex_event(reader: &mut MidiParser) -> (r: Result<MidiEvent, MidiParseError>)
    ensures
        final(reader).data == old(reader).data,
        match r {
            Ok(event) => parse_sysex_spec(old(reader).data@, old(reader).position as int) == Ok::<
                (SpecMidiEvent, int),
                MidiParseError,
            >((event@, final(reader).position as int)),
            Err(e) => parse_sysex_spec(old(reader).data@, old(reader).position as int) == Err::<
                (SpecMidiEvent, int),
                MidiParseError,
            >(e),
        },
{
    let ghost s = reader.data@;
    let ghost pos0 = reader.position as int;
    let length = match reader.read_vlq() {
        Ok(v) => v,
        Err(e) => {
            return Err(e);
        },
    } as usize;
    let ghost p1 = reader.position as int;

    let mut data: Vec<u8> = Vec::new();
    let mut i: usize = 0;
    while i < length
        invariant
            reader.data == old(reader).data,
            reader.data@ == s,
            s == old(reader).data@,
            pos0 == old(reader).position as int,
            crate::vlq::vlq_parse(s, pos0) == Ok::<(u32, int), MidiParseError>((length as u32, p1)),
            i <= length,
            length <= u32::MAX,
            0 <= p1,
            reader.position == p1 + i,
            p1 + i <= s.len(),
            data@ == s.subrange(p1, p1 + i),
        decreases length - i,
    {
        let b = match reader.read_u8_be() {
            Ok(b) => b,
            Err(e) => {
                proof {
                    assert(p1 + length > s.len());
                    assert(parse_sysex_spec(s, pos0) == Err::<(SpecMidiEvent, int), MidiParseError>(
                        MidiParseError::UnexpectedEndOfData,
                    ));
                }
                return Err(e);
            },
        };
        data.push(b);
        proof {
            assert(data@ =~= s.subrange(p1, p1 + i + 1));
        }
        i += 1;
    }
    proof {
        assert(data@ == s.subrange(p1, p1 + length));
    }

    Ok(MidiEvent::System(SystemMessage::SysEx(data)))
}

/// Decodes one event body given its resolved status byte: meta events for
/// 0xFF, system-exclusive for 0xF0/0xF7, channel voice messages below
/// 0xF0 (dispatched on the status byte's high nibble, the channel taken
/// from its low nibble).
pub fn parse_midi_event(reader: &mut MidiParser, status: u8) -> (r: Result<MidiEvent, MidiParseError>)
    ensures
        final(reader).data == old(reader).data,
        match r {
            Ok(event) => parse_event_spec(old(reader).data@, old(reader).position as int, status)
                == Ok::<(SpecMidiEvent, int), MidiParseError>((
                event@,
                final(reader).position as int,
            )),
            Err(e) => parse_event_spec(old(reader).data@, old(reader).position as int, status)
                == Err::<(SpecMidiEvent, int), MidiParseError>(e),
        },
{
    if status >= 0xF0 {
        match status {
            0xFF => {
                return parse_meta_event(reader);
            },
            0xF0 | 0xF7 => {
                return parse_sysex_event(reader);
            },
            _ => {
                return Err(MidiParseError::InvalidFormat(status as u16));
            },
        }
    }

    let event_type = status & 0xF0;
    let channel = status & 0x0F;

    let channel_message = match event_type {
        0x80 => {
            let note = match reader.read_u8_be() {
                Ok(b) => b,
                Err(e) => {
                    return Err(e);
                },
            };
            let velocity = match reader.read_u8_be() {
                Ok(b) => b,
                Err(e) => {
                    return Err(e);
                },
            };
            ChannelMessage::NoteOff { note, velocity }
        },
        0x90 => {
            let note = match reader.read_u8_be() {
                Ok(b) => b,
                Err(e) => {
                    return Err(e);
                },
            };
            let velocity = match reader.read_u8_be() {
                Ok(b) => b,
                Err(e) => {
                    return Err(e);
                },
            };
            ChannelMessage::NoteOn { note, velocity }
        },
        0xA0 => {
            let note = match reader.read_u8_be() {
                Ok(b) => b,
                Err(e) => {
                    return Err(e);
                },
            };
            let pressure = match reader.read_u8_be() {
                Ok(b) => b,
                Err(e) => {
                    return Err(e);
                },
            };
            ChannelMessage::PolyPressure { note, pressure }
        },
        0xB0 => {
            let controller = match reader.read_u8_be() {
                Ok(b) => b,
                Err(e) => {
                    return Err(e);
                },
            };
            let value = match reader.read_u8_be() {
                Ok(b) => b,
                Err(e) => {
                    return Err(e);
                },
            };
            ChannelMessage::ControlChange { controller, value }
        },
        0xC0 => {
            let program = match reader.read_u8_be() {
                Ok(b) => b,
                Err(e) => {
                    return Err(e);
                },
            };
            ChannelMessage::ProgramChange { program }
        },
        0xD0 => {
            let pressure = match reader.read_u8_be() {
                Ok(b) => b,
                Err(e) => {
                    return Err(e);
                },
            };
            ChannelMessage::ChannelPressure { pressure }
        },
        0xE0 => {
            let low_byte = match reader.read_u8_be() {
                Ok(b) => b,
                Err(e) => {
                    return Err(e);
                },
            };
            let high_byte = match reader.read_u8_be() {
                Ok(b) => b,
                Err(e) => {
                    return Err(e);
                },
            };
            proof {
                assert(((high_byte as i16) << 7) | (low_byte as i16) >= 0) by (bit_vector);
            }
            let value = ((high_byte as i16) << 7) | (low_byte as i16);
            ChannelMessage::PitchBend { value: PitchBend::from_raw(value) }
        },
        _ => {
            return Err(MidiParseError::InvalidFormat(event_type as u16));
        },
    };

    Ok(MidiEvent::Channel { channel, message: channel_message })
}

/// Decodes the events of a track body until the cursor reaches
/// `track_end`, threading running status: an explicit status byte below
/// 0xF0 is remembered, one at or above 0xF0 clears the memory, and a data
/// byte in status position reuses the remembered status (an error when
/// none has been seen yet).
pub fn parse_midi_track(reader: &mut MidiParser, track_end: usize) -> (r: Result<
    MidiTrack,
    MidiParseError,
>)
    ensures
        final(reader).data == old(reader).data,
        match r {
            Ok(track) => parse_events_spec(
                old(reader).data@,
                old(reader).position as int,
                track_end as int,
                None,
            ) == Ok::<(Seq<SpecTrackEvent>, int), MidiParseError>((
                track@.events,
                final(reader).position as int,
            )),
            Err(e) => parse_events_spec(
                old(reader).data@,
                old(reader).position as int,
                track_end as int,
                None,
            ) == Err::<(Seq<SpecTrackEvent>, int), MidiParseError>(e),
        },
{
    let ghost s = reader.data@;
    let ghost pos0 = reader.position as int;
    let ghost end = track_end as int;

    let mut events: Vec<TrackEvent> = Vec::new();
    let mut running_status: Option<u8> = None;

    while reader.position < track_end
        invariant
            reader.data == old(reader).data,
            reader.data@ == s,
            s == old(reader).data@,
            pos0 == old(reader).position as int,
            end == track_end as int,
            match parse_events_spec(s, reader.position as int, end, running_status) {
                Ok((rest, pend)) => parse_events_spec(s, pos0, end, None) == Ok::<
                    (Seq<SpecTrackEvent>, int),
                    MidiParseError,
                >((events@.map_values(|e: TrackEvent| e@) + rest, pend)),
                Err(e) => parse_events_spec(s, pos0, end, None) == Err::<
                    (Seq<SpecTrackEvent>, int),
                    MidiParseError,
                >(e),
            },
        decreases vstd::math::max(end - reader.position, 0),
    {
        let ghost pos_b = reader.position as int;
        let ghost running_b = running_status;

        let delta_time = match reader.read_vlq() {
            Ok(v) => v,
            Err(e) => {
                return Err(e);
            },
        };

        let next_byte = match reader.peek_u8_be() {
            Ok(b) => b,
            Err(e) => {
                return Err(e);
            },
        };

        let status = if next_byte >= 0x80 {
            let status_byte = match reader.read_u8_be() {
                Ok(b) => b,
                Err(e) => {
                    return Err(e);
                },
            };
            if status_byte < 0xF0 {
                running_status = Some(status_byte);
            } else {
                running_status = None;
            }
            status_byte
        } else {
            match running_status {
                Some(prev_status) => prev_status,
                None => {
                    return Err(MidiParseError::RunningStatusWithoutPrevious);
                },
            }
        };

        let ghost pos_ev = reader.position as int;
        let event = match parse_midi_event(reader, status) {
            Ok(ev) => ev,
            Err(e) => {
                return Err(e);
            },
        };

        proof {
            crate::wire::lemma_parse_event_bounds(s, pos_ev, status);
            assert(parse_timed_event_spec(s, pos_b, running_b) == Ok::<
                (SpecTrackEvent, Option<u8>, int),
                MidiParseError,
            >((
                SpecTrackEvent { delta_time, event: event@ },
                running_status,
                reader.position as int,
            )));
        }

        let ghost events_before = events@.map_values(|e: TrackEvent| e@);
        events.push(TrackEvent { delta_time, event });

        proof {
            let te = SpecTrackEvent { delta_time, event: event@ };
            assert(events@.map_values(|e: TrackEvent| e@) =~= events_before.push(te));
            let p2 = reader.position as int;
            match parse_events_spec(s, p2, end, running_status) {
                Ok((rest2, pend2)) => {
                    assert(parse_events_spec(s, pos_b, end, running_b) == Ok::<
                        (Seq<SpecTrackEvent>, int),
                        MidiParseError,
                    >((seq![te] + rest2, pend2)) ) by {
                        if p2 >= end {
                            assert(parse_events_spec(s, p2, end, running_status) == Ok::<
                                (Seq<SpecTrackEvent>, int),
                                MidiParseError,
                            >((Seq::empty(), p2)));
                            assert(seq![te] + Seq::<SpecTrackEvent>::empty() =~= seq![te]);
                        }
                    };
                    assert(events_before.push(te) + rest2 =~= events_before + (seq![te] + rest2));
                },
                Err(_) => {},
            }
        }
    }

    proof {
        assert(parse_events_spec(s, reader.position as int, end, running_status) == Ok::<
            (Seq<SpecTrackEvent>, int),
            MidiParseError,
        >((Seq::empty(), reader.position as int)));
        assert(events@.map_values(|e: TrackEvent| e@) + Seq::<SpecTrackEvent>::empty()
            =~= events@.map_values(|e: TrackEvent| e@));
    }

    Ok(MidiTrack { events })
}

/// Decodes a whole file: the `"MThd"` chunk with its fixed length of 6,
/// the format (only 0 is accepted), the declared track count (which must
/// be nonzero), the time division, then a single `"MTrk"` chunk whose
/// declared length bounds its events.  Only that one chunk is read,
/// whatever the declared track count — the single-track limitation of
/// this decoder.
pub fn parse_midi_file(data: &[u8]) -> (r: Result<Midi, MidiParseError>)
    ensures
        match r {
            Ok(midi) => parse_file_spec(data@) == Ok::<SpecMidi, MidiParseError>(midi@),
            Err(e) => parse_file_spec(data@) == Err::<SpecMidi, MidiParseError>(e),
        },
{
    let ghost s = data@;
    let mut reader = MidiParser::new(data);

    let mthd = [0x4Du8, 0x54u8, 0x68u8, 0x64u8];
    proof {
        assert(mthd@ =~= crate::wire::mthd_magic());
    }
    match reader.expect_bytes(vstd::array::array_as_slice(&mthd)) {
        Ok(()) => (),
        Err(e) => {
            return Err(e);
        },
    }

    let header_length = match reader.read_u32_be() {
        Ok(v) => v,
        Err(e) => {
            return Err(e);
        },
    };
    if header_length != 6 {
        return Err(MidiParseError::InvalidHeader);
    }

    let format = match reader.read_u16_be() {
        Ok(v) => v,
        Err(e) => {
            return Err(e);
        },
    };
    let amount_of_tracks = match reader.read_u16_be() {
        Ok(v) => v,
        Err(e) => {
            return Err(e);
        },
    };
    let time_division = match reader.read_u16_be() {
        Ok(v) => v,
        Err(e) => {
            return Err(e);
        },
    };

    if format != 0 {
        return Err(MidiParseError::InvalidFormat(format));
    }
    if amount_of_tracks == 0 {
        return Err(MidiParseError::InvalidTrackCount(amount_of_tracks));
    }

    let mtrk = [0x4Du8, 0x54u8, 0x72u8, 0x6Bu8];
    proof {
        assert(mtrk@ =~= crate::wire::mtrk_magic());
    }
    match reader.expect_bytes(vstd::array::array_as_slice(&mtrk)) {
        Ok(()) => (),
        Err(e) => {
            return Err(e);
        },
    }

    let track_length = match reader.read_u32_be() {
        Ok(v) => v,
        Err(e) => {
            return Err(e);
        },
    };

    proof {
        assert(reader.position == 22);
    }
    if (track_length as u64) > (data.len() - reader.position) as u64 {
        // The declared length runs past the buffer: events are read until
        // the buffer gives out, and even a clean run of events then ends
        // with a read past its end.
        proof {
            crate::wire::lemma_parse_events_overrun(s, 22, 22 + track_length as int, None);
        }
        return match parse_midi_track(&mut reader, data.len()) {
            Ok(_) => Err(MidiParseError::UnexpectedEndOfData),
            Err(e) => Err(e),
        };
    }
    let track_end = reader.position + track_length as usize;

    let track = match parse_midi_track(&mut reader, track_end) {
        Ok(t) => t,
        Err(e) => {
            return Err(e);
        },
    };

    let mut tracks: Vec<MidiTrack> = Vec::new();
    tracks.push(track);
    let midi = Midi { format, tracks, time_division };
    proof {
        assert(midi@.tracks =~= seq![midi.tracks@[0]@]);
        assert(parse_file_spec(s) matches Ok(m) && m =~~= midi@);
    }
    Ok(midi)
}

} // verus!
