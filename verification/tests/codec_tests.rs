use midi_codec::error::MidiParseError;
use midi_codec::model::{ChannelMessage, MetaMessage, Midi, MidiEvent, MidiTrack, PitchBend, SystemMessage, TrackEvent};
use midi_codec::parser::{parse_meta_event, parse_midi_event, parse_midi_file, parse_midi_track};
use midi_codec::reader::MidiParser;
use midi_codec::writer::MidiWriter;

fn encode_vlq(value: u32) -> Vec<u8> {
    let mut w = MidiWriter::new();
    w.write_vlq(value);
    w.into_bytes()
}

#[test]
fn vlq_identity_on_group_boundaries() {
    for &v in &[0u32, 127, 128, 16383, 16384, 2097151, 2097152, 268435455] {
        let bytes = encode_vlq(v);
        let mut p = MidiParser::new(&bytes);
        assert_eq!(p.read_vlq().unwrap(), v);
        assert_eq!(p.position, bytes.len());
    }
}

#[test]
fn vlq_minimal_encodings() {
    assert_eq!(encode_vlq(0), vec![0x00]);
    assert_eq!(encode_vlq(127), vec![0x7F]);
    assert_eq!(encode_vlq(128), vec![0x81, 0x00]);
    assert_eq!(encode_vlq(16383), vec![0xFF, 0x7F]);
    assert_eq!(encode_vlq(16384), vec![0x81, 0x80, 0x00]);
    assert_eq!(encode_vlq(2097151), vec![0xFF, 0xFF, 0x7F]);
    assert_eq!(encode_vlq(2097152), vec![0x81, 0x80, 0x80, 0x00]);
    assert_eq!(encode_vlq(268435455), vec![0xFF, 0xFF, 0xFF, 0x7F]);
}

#[test]
fn pitch_bend_raw_zero_is_full_down() {
    assert_eq!(PitchBend::from_raw(0).value(), -8192);
}

#[test]
fn pitch_bend_raw_center_is_zero() {
    assert_eq!(PitchBend::from_raw(8192).value(), 0);
}

#[test]
fn pitch_bend_raw_max_is_full_up() {
    assert_eq!(PitchBend::from_raw(16383).value(), 8191);
}

#[test]
fn pitch_bend_raw_round_trip_everywhere() {
    for raw in 0..=16383i16 {
        assert_eq!(PitchBend::from_raw(raw).to_raw(), raw);
    }
}

#[test]
fn reader_reads_big_endian_numbers() {
    let data = [0x12u8, 0x34, 0x56, 0x78, 0x9A];
    let mut p = MidiParser::new(&data);
    assert_eq!(p.read_u8_be().unwrap(), 0x12);
    assert_eq!(p.read_u16_be().unwrap(), 0x3456);
    assert_eq!(p.position, 3);
    assert!(matches!(p.read_u32_be(), Err(MidiParseError::UnexpectedEndOfData)));
    assert_eq!(p.position, 3);
    assert_eq!(p.read_u16_be().unwrap(), 0x789A);
}

#[test]
fn reader_exact_fit_reads_succeed() {
    let two = [0xABu8, 0xCD];
    let mut p = MidiParser::new(&two);
    assert_eq!(p.read_u16_be().unwrap(), 0xABCD);

    let four = [0x01u8, 0x02, 0x03, 0x04];
    let mut p = MidiParser::new(&four);
    assert_eq!(p.read_u32_be().unwrap(), 0x01020304);
}

#[test]
fn reader_peeks_do_not_advance() {
    let data = [0x11u8, 0x22, 0x33, 0x44];
    let p = MidiParser::new(&data);
    assert_eq!(p.peek_u8_be().unwrap(), 0x11);
    assert_eq!(p.peek_u16_be().unwrap(), 0x1122);
    assert_eq!(p.peek_u32_be().unwrap(), 0x11223344);
    assert_eq!(p.position, 0);
}

#[test]
fn reader_expect_bytes_matches_and_consumes() {
    let data = [0x4Du8, 0x54, 0x68, 0x64, 0x00];
    let mut p = MidiParser::new(&data);
    assert!(p.expect_bytes(b"MThd").is_ok());
    assert_eq!(p.position, 4);
    let mut q = MidiParser::new(&data);
    assert!(matches!(q.expect_bytes(b"MTrk"), Err(MidiParseError::InvalidHeader)));
    assert_eq!(q.position, 0);
    let mut r = MidiParser::new(&data);
    assert!(matches!(
        r.expect_bytes(b"MThd\x00\x00"),
        Err(MidiParseError::UnexpectedEndOfData)
    ));
}

#[test]
fn running_status_reuses_previous_status() {
    let bytes = [0x00u8, 0x90, 60, 100, 0x00, 64, 100];
    let mut p = MidiParser::new(&bytes);
    let track = parse_midi_track(&mut p, bytes.len()).unwrap();
    assert_eq!(track.events.len(), 2);
    match &track.events[1].event {
        MidiEvent::Channel { channel, message } => {
            assert_eq!(*channel, 0);
            match message {
                ChannelMessage::NoteOn { note, velocity } => {
                    assert_eq!(*note, 64);
                    assert_eq!(*velocity, 100);
                },
                other => panic!("expected a NoteOn, got {:?}", other),
            }
        },
        other => panic!("expected a channel event, got {:?}", other),
    }
}

#[test]
fn running_status_without_previous_fails() {
    let bytes = [0x00u8, 0x3C, 0x64];
    let mut p = MidiParser::new(&bytes);
    assert!(matches!(
        parse_midi_track(&mut p, bytes.len()),
        Err(MidiParseError::RunningStatusWithoutPrevious)
    ));
}

#[test]
fn bad_magic_fails_with_invalid_header() {
    let bytes = b"MThx\x00\x00\x00\x06\x00\x00\x00\x01\x00\x60";
    assert!(matches!(parse_midi_file(bytes), Err(MidiParseError::InvalidHeader)));
}

#[test]
fn header_length_other_than_six_rejected() {
    let bytes = b"MThd\x00\x00\x00\x07\x00\x00\x00\x01\x00\x60";
    assert!(matches!(parse_midi_file(bytes), Err(MidiParseError::InvalidHeader)));
}

#[test]
fn truncated_header_fails_cleanly() {
    let bytes = b"MThd\x00\x00";
    assert!(matches!(parse_midi_file(bytes), Err(MidiParseError::UnexpectedEndOfData)));
}

#[test]
fn nonzero_format_rejected() {
    let bytes = b"MThd\x00\x00\x00\x06\x00\x01\x00\x01\x00\x60MTrk\x00\x00\x00\x00";
    assert!(matches!(parse_midi_file(bytes), Err(MidiParseError::InvalidFormat(1))));
}

#[test]
fn zero_track_count_rejected() {
    let bytes = b"MThd\x00\x00\x00\x06\x00\x00\x00\x00\x00\x60MTrk\x00\x00\x00\x00";
    assert!(matches!(parse_midi_file(bytes), Err(MidiParseError::InvalidTrackCount(0))));
}

#[test]
fn overrunning_track_length_fails_cleanly() {
    // The track chunk declares 100 bytes but only one event follows.
    let mut bytes = b"MThd\x00\x00\x00\x06\x00\x00\x00\x01\x00\x60MTrk\x00\x00\x00\x64".to_vec();
    bytes.extend_from_slice(&[0x00, 0x90, 0x3C, 0x64]);
    assert!(matches!(parse_midi_file(&bytes), Err(MidiParseError::UnexpectedEndOfData)));
}

#[test]
fn tempo_meta_with_wrong_length_rejected() {
    let bytes = [0x51u8, 0x02, 0x07, 0xA1];
    let mut p = MidiParser::new(&bytes);
    assert!(matches!(
        parse_meta_event(&mut p),
        Err(MidiParseError::InvalidMetaLength(0x51))
    ));
}

#[test]
fn tempo_meta_decodes_24_bit_value() {
    let bytes = [0x51u8, 0x03, 0x07, 0xA1, 0x20];
    let mut p = MidiParser::new(&bytes);
    match parse_meta_event(&mut p).unwrap() {
        MidiEvent::System(SystemMessage::Meta(MetaMessage::Tempo(t))) => assert_eq!(t, 500000),
        other => panic!("expected a tempo event, got {:?}", other),
    }
}

#[test]
fn track_name_meta_decodes_utf8_text() {
    // "é" is 0xC3 0xA9 in UTF-8: the decoded name must be the character,
    // not the raw bytes.
    let bytes = [0x03u8, 0x02, 0xC3, 0xA9];
    let mut p = MidiParser::new(&bytes);
    match parse_meta_event(&mut p).unwrap() {
        MidiEvent::System(SystemMessage::Meta(MetaMessage::TrackName(name))) => {
            assert_eq!(name, "\u{e9}");
        },
        other => panic!("expected a track name, got {:?}", other),
    }
}

#[test]
fn track_name_meta_replaces_invalid_utf8() {
    let bytes = [0x03u8, 0x01, 0xFF];
    let mut p = MidiParser::new(&bytes);
    match parse_meta_event(&mut p).unwrap() {
        MidiEvent::System(SystemMessage::Meta(MetaMessage::TrackName(name))) => {
            assert_eq!(name, "\u{fffd}");
        },
        other => panic!("expected a track name, got {:?}", other),
    }
}

#[test]
fn unrecognized_status_byte_rejected() {
    let bytes = [0x00u8];
    let mut p = MidiParser::new(&bytes);
    assert!(matches!(
        parse_midi_event(&mut p, 0xF4),
        Err(MidiParseError::InvalidFormat(0xF4))
    ));
}

#[test]
fn data_byte_as_status_rejected() {
    let bytes = [0x00u8, 0x00];
    let mut p = MidiParser::new(&bytes);
    assert!(matches!(
        parse_midi_event(&mut p, 0x4C),
        Err(MidiParseError::InvalidFormat(0x40))
    ));
}

#[test]
fn pitch_bend_event_decodes_centered_value() {
    // Raw 0x2000 (center) arrives as low 7 bits then high 7 bits.
    let bytes = [0x00u8, 0x40];
    let mut p = MidiParser::new(&bytes);
    match parse_midi_event(&mut p, 0xE3).unwrap() {
        MidiEvent::Channel { channel, message } => {
            assert_eq!(channel, 3);
            match message {
                ChannelMessage::PitchBend { value } => assert_eq!(value.value(), 0),
                other => panic!("expected a pitch bend, got {:?}", other),
            }
        },
        other => panic!("expected a channel event, got {:?}", other),
    }
}

fn example_file_bytes() -> Vec<u8> {
    let mut bytes = Vec::new();
    bytes.extend_from_slice(b"MThd");
    bytes.extend_from_slice(&[0x00, 0x00, 0x00, 0x06]);
    bytes.extend_from_slice(&[0x00, 0x00]); // format 0
    bytes.extend_from_slice(&[0x00, 0x01]); // one track
    bytes.extend_from_slice(&[0x00, 0x60]); // division 96
    bytes.extend_from_slice(b"MTrk");
    bytes.extend_from_slice(&[0x00, 0x00, 0x00, 0x08]);
    bytes.extend_from_slice(&[0x00, 0x90, 0x3C, 0x64]); // NoteOn ch0 60 100
    bytes.extend_from_slice(&[0x00, 0xFF, 0x2F, 0x00]); // end of track
    bytes
}

#[test]
fn end_to_end_example_decodes() {
    let midi = parse_midi_file(&example_file_bytes()).unwrap();
    assert_eq!(midi.format, 0);
    assert_eq!(midi.time_division, 96);
    assert_eq!(midi.tracks.len(), 1);
    let events = &midi.tracks[0].events;
    assert_eq!(events.len(), 2);
    assert_eq!(events[0].delta_time, 0);
    match &events[0].event {
        MidiEvent::Channel { channel, message } => {
            assert_eq!(*channel, 0);
            assert_eq!(
                *message,
                ChannelMessage::NoteOn { note: 60, velocity: 100 }
            );
        },
        other => panic!("expected a channel event, got {:?}", other),
    }
    assert_eq!(events[1].delta_time, 0);
    match &events[1].event {
        MidiEvent::System(SystemMessage::Meta(MetaMessage::Raw { meta_type, data })) => {
            assert_eq!(*meta_type, 0x2F);
            assert!(data.is_empty());
        },
        other => panic!("expected an end-of-track meta, got {:?}", other),
    }
}

#[test]
fn end_to_end_example_reencodes_identically() {
    let bytes = example_file_bytes();
    let midi = parse_midi_file(&bytes).unwrap();
    let mut w = MidiWriter::new();
    w.write_midi(&midi);
    assert_eq!(w.into_bytes(), bytes);
}

#[test]
fn writer_backpatches_body_length() {
    let midi = Midi {
        format: 0,
        time_division: 96,
        tracks: vec![MidiTrack {
            events: vec![TrackEvent {
                delta_time: 0,
                event: MidiEvent::Channel {
                    channel: 0,
                    message: ChannelMessage::NoteOn { note: 60, velocity: 100 },
                },
            }],
        }],
    };
    let mut w = MidiWriter::new();
    w.write_midi(&midi);
    let bytes = w.into_bytes();
    // The track length field counts only the body that follows it.
    assert_eq!(&bytes[14..18], b"MTrk");
    assert_eq!(&bytes[18..22], &[0x00, 0x00, 0x00, 0x04]);
    assert_eq!(&bytes[22..], &[0x00, 0x90, 0x3C, 0x64]);
}

#[test]
fn time_signature_encodes_wire_exponent() {
    let midi = Midi {
        format: 0,
        time_division: 96,
        tracks: vec![MidiTrack {
            events: vec![TrackEvent {
                delta_time: 0,
                event: MidiEvent::System(SystemMessage::Meta(MetaMessage::TimeSignature {
                    numerator: 6,
                    denominator: 8,
                    clocks_per_click: 24,
                    notes_per_quarter: 8,
                })),
            }],
        }],
    };
    let mut w = MidiWriter::new();
    w.write_midi(&midi);
    let bytes = w.into_bytes();
    assert_eq!(&bytes[22..], &[0x00, 0xFF, 0x58, 0x04, 0x06, 0x03, 0x18, 0x08]);
}

#[test]
fn decode_encode_decode_round_trip() {
    let midi = Midi {
        format: 0,
        time_division: 480,
        tracks: vec![MidiTrack {
            events: vec![
                TrackEvent {
                    delta_time: 0,
                    event: MidiEvent::System(SystemMessage::Meta(MetaMessage::TrackName(
                        String::from("Pi\u{e8}ce"),
                    ))),
                },
                TrackEvent {
                    delta_time: 0,
                    event: MidiEvent::System(SystemMessage::Meta(MetaMessage::Tempo(500000))),
                },
                TrackEvent {
                    delta_time: 3,
                    event: MidiEvent::Channel {
                        channel: 2,
                        message: ChannelMessage::ProgramChange { program: 41 },
                    },
                },
                TrackEvent {
                    delta_time: 200,
                    event: MidiEvent::Channel {
                        channel: 2,
                        message: ChannelMessage::NoteOn { note: 60, velocity: 100 },
                    },
                },
                TrackEvent {
                    delta_time: 5,
                    event: MidiEvent::Channel {
                        channel: 2,
                        message: ChannelMessage::PolyPressure { note: 60, pressure: 77 },
                    },
                },
                TrackEvent {
                    delta_time: 1,
                    event: MidiEvent::Channel {
                        channel: 15,
                        message: ChannelMessage::ControlChange { controller: 7, value: 127 },
                    },
                },
                TrackEvent {
                    delta_time: 0,
                    event: MidiEvent::Channel {
                        channel: 3,
                        message: ChannelMessage::PitchBend { value: PitchBend::from_raw(12000) },
                    },
                },
                TrackEvent {
                    delta_time: 2,
                    event: MidiEvent::Channel {
                        channel: 2,
                        message: ChannelMessage::ChannelPressure { pressure: 15 },
                    },
                },
                TrackEvent {
                    delta_time: 40000,
                    event: MidiEvent::Channel {
                        channel: 2,
                        message: ChannelMessage::NoteOff { note: 60, velocity: 0 },
                    },
                },
                TrackEvent {
                    delta_time: 0,
                    event: MidiEvent::System(SystemMessage::SysEx(vec![0x7E, 0x7F, 0x09, 0x01])),
                },
                TrackEvent {
                    delta_time: 0,
                    event: MidiEvent::System(SystemMessage::Meta(MetaMessage::Raw {
                        meta_type: 0x2F,
                        data: vec![],
                    })),
                },
            ],
        }],
    };
    let mut w = MidiWriter::new();
    w.write_midi(&midi);
    let bytes = w.into_bytes();
    let decoded = parse_midi_file(&bytes).unwrap();
    assert_eq!(decoded, midi);

    let mut w2 = MidiWriter::new();
    w2.write_midi(&decoded);
    assert_eq!(w2.into_bytes(), bytes);
}

#[test]
fn sysex_event_encodes_length_prefixed() {
    let midi = Midi {
        format: 0,
        time_division: 96,
        tracks: vec![MidiTrack {
            events: vec![TrackEvent {
                delta_time: 0,
                event: MidiEvent::System(SystemMessage::SysEx(vec![0x01, 0x02, 0x03])),
            }],
        }],
    };
    let mut w = MidiWriter::new();
    w.write_midi(&midi);
    let bytes = w.into_bytes();
    assert_eq!(&bytes[22..], &[0x00, 0xF0, 0x03, 0x01, 0x02, 0x03]);
}
