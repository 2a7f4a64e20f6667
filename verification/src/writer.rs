use vstd::prelude::*;

use crate::model::{ChannelMessage, MetaMessage, Midi, MidiEvent, MidiTrack, SystemMessage, TrackEvent};
use crate::vlq::{vlq_bytes, vlq_max, vlq_prefix};
use crate::wire::{
    be16_bytes, be32_bytes, channel_body_bytes, channel_status, denominator_exponent,
    encodable_event, encodable_meta, encodable_message, encodable_midi, encodable_track,
    event_bytes, events_bytes, meta_body_bytes, midi_bytes, mthd_magic, mtrk_magic, payload_bytes,
    track_body_bytes, track_bytes, tracks_bytes,
};

verus! {

/// Sequential, growable byte sink; the view is the bytes written so far.
/// Fixed-width values are written big-endian; track length fields are
/// backpatched once the chunk body has been written.
pub struct MidiWriter {
    data: Vec<u8>,
}

impl View for MidiWriter {
    type V = Seq<u8>;

    closed spec fn view(&self) -> Seq<u8> {
        self.data@
    }
}

impl MidiWriter {
    /// An empty sink.
    pub fn new() -> (r: Self)
        ensures
            r@ == Seq::<u8>::empty(),
    {
        MidiWriter { data: Vec::new() }
    }

    /// Hands the accumulated bytes out.
    pub fn into_bytes(self) -> (r: Vec<u8>)
        ensures
            r@ == self@,
    {
        self.data
    }

    /// Appends one byte.
    fn write_u8(&mut self, value: u8)
        ensures
            final(self)@ == old(self)@.push(value),
    {
        self.data.push(value);
    }

    /// Appends a 16-bit value, big-endian.
    fn write_u16(&mut self, value: u16)
        ensures
            final(self)@ == old(self)@ + be16_bytes(value),
    {
        self.data.push((value / 256) as u8);
        self.data.push((value % 256) as u8);
        proof {
            assert(final(self)@ =~= old(self)@ + be16_bytes(value));
        }
    }

    /// Appends a 32-bit value, big-endian.
    fn write_u32(&mut self, value: u32)
        ensures
            final(self)@ == old(self)@ + be32_bytes(value),
    {
        self.data.push((value / 0x1000000) as u8);
        self.data.push(((value / 0x10000) % 256) as u8);
        self.data.push(((value / 256) % 256) as u8);
        self.data.push((value % 256) as u8);
        proof {
            assert(final(self)@ =~= old(self)@ + be32_bytes(value));
        }
    }

    /// Appends a byte slice verbatim.
    fn write_bytes(&mut self, bytes: &[u8])
        ensures
            final(self)@ == old(self)@ + bytes@,
    {
        let n = bytes.len();
        let mut i: usize = 0;
        while i < n
            invariant
                i <= n,
                n == bytes@.len(),
                self@ == old(self)@ + bytes@.subrange(0, i as int),
            decreases n - i,
        {
            self.data.push(bytes[i]);
            proof {
                assert(bytes@.subrange(0, i + 1) =~= bytes@.subrange(0, i as int).push(
                    bytes@[i as int],
                ));
                assert(self@ =~= old(self)@ + bytes@.subrange(0, i + 1));
            }
            i += 1;
        }
        proof {
            assert(bytes@.subrange(0, n as int) =~= bytes@);
        }
    }

    /// Appends the minimal variable-length encoding of `value`, which must
    /// fit the 4-byte cap (28 bits).
    pub fn write_vlq(&mut self, value: u32)
        requires
            value <= vlq_max(),
        ensures
            final(self)@ == old(self)@ + vlq_bytes(value),
    {
        proof {
            crate::vlq::lemma_pow128_values();
        }
        if value < 128 {
            proof {
                assert(vlq_prefix(value / 128) =~= Seq::<u8>::empty());
                assert(vlq_bytes(value) =~= seq![(value % 128) as u8]);
            }
            self.write_u8(value as u8);
            proof {
                assert(final(self)@ =~= old(self)@ + vlq_bytes(value));
            }
        } else if value < 16384 {
            self.write_u8(((value / 128) % 128) as u8 + 128);
            self.write_u8((value % 128) as u8);
            proof {
                let h = value / 128;
                assert(vlq_prefix(0u32) == Seq::<u8>::empty());
                assert(h / 128 == 0 && h % 128 == h);
                assert(vlq_prefix(h) =~= seq![((h % 128) + 128) as u8]);
                assert(final(self)@ =~= old(self)@ + vlq_bytes(value));
            }
        } else if value < 2097152 {
            self.write_u8(((value / 16384) % 128) as u8 + 128);
            self.write_u8(((value / 128) % 128) as u8 + 128);
            self.write_u8((value % 128) as u8);
            proof {
                let h = value / 128;
                let h2 = value / 16384;
                assert(h / 128 == h2 && h2 / 128 == 0 && h2 % 128 == h2);
                assert(vlq_prefix(0u32) == Seq::<u8>::empty());
                assert(vlq_prefix(h2) =~= seq![((h2 % 128) + 128) as u8]);
                assert(vlq_prefix(h) =~= vlq_prefix(h2) + seq![((h % 128) + 128) as u8]);
                assert(final(self)@ =~= old(self)@ + vlq_bytes(value));
            }
        } else {
            self.write_u8(((value / 2097152) % 128) as u8 + 128);
            self.write_u8(((value / 16384) % 128) as u8 + 128);
            self.write_u8(((value / 128) % 128) as u8 + 128);
            self.write_u8((value % 128) as u8);
            proof {
                let h = value / 128;
                let h2 = value / 16384;
                let h3 = value / 2097152;
                assert(h / 128 == h2 && h2 / 128 == h3 && h3 / 128 == 0 && h3 % 128 == h3);
                assert(vlq_prefix(0u32) == Seq::<u8>::empty());
                assert(vlq_prefix(h3) =~= seq![((h3 % 128) + 128) as u8]);
                assert(vlq_prefix(h2) =~= vlq_prefix(h3) + seq![((h2 % 128) + 128) as u8]);
                assert(vlq_prefix(h) =~= vlq_prefix(h2) + seq![((h % 128) + 128) as u8]);
                assert(final(self)@ =~= old(self)@ + vlq_bytes(value));
            }
        }
    }

    /// Serializes a whole file: the header chunk, then every track chunk.
    pub fn write_midi(&mut self, midi: &Midi)
        requires
            encodable_midi(midi@),
        ensures
            final(self)@ == old(self)@ + midi_bytes(midi@),
    {
        self.write_u8(0x4D);
        self.write_u8(0x54);
        self.write_u8(0x68);
        self.write_u8(0x64);
        proof {
            assert(self@ =~= old(self)@ + mthd_magic());
        }
        self.write_u32(6);
        self.write_u16(midi.format);
        self.write_u16(midi.tracks.len() as u16);
        self.write_u16(midi.time_division);
        let ghost header = mthd_magic() + be32_bytes(6) + be16_bytes(midi@.format) + be16_bytes(
            midi@.tracks.len() as u16,
        ) + be16_bytes(midi@.time_division);
        proof {
            assert(self@ =~= old(self)@ + header);
        }
        let n = midi.tracks.len();
        let mut i: usize = 0;
        while i < n
            invariant
                i <= n,
                n == midi.tracks@.len(),
                encodable_midi(midi@),
                header == mthd_magic() + be32_bytes(6) + be16_bytes(midi@.format) + be16_bytes(
                    midi@.tracks.len() as u16,
                ) + be16_bytes(midi@.time_division),
                self@ == old(self)@ + header + tracks_bytes(midi@.tracks.take(i as int)),
            decreases n - i,
        {
            proof {
                assert(midi@.tracks[i as int] == midi.tracks@[i as int]@);
                assert(encodable_track(midi@.tracks[i as int]));
            }
            self.write_track(&midi.tracks[i]);
            proof {
                assert(midi@.tracks.take(i + 1) =~= midi@.tracks.take(i as int).push(
                    midi@.tracks[i as int],
                ));
                crate::wire::lemma_tracks_bytes_push(
                    midi@.tracks.take(i as int),
                    midi@.tracks[i as int],
                );
                assert(self@ =~= old(self)@ + header + tracks_bytes(midi@.tracks.take(i + 1)));
            }
            i += 1;
        }
        proof {
            assert(midi@.tracks.take(n as int) =~= midi@.tracks);
            assert(final(self)@ =~= old(self)@ + midi_bytes(midi@));
        }
    }

    /// Serializes one track chunk: the magic, a placeholder length, the
    /// events, then the placeholder backpatched with the body's byte count.
    fn write_track(&mut self, track: &MidiTrack)
        requires
            encodable_track(track@),
        ensures
            final(self)@ == old(self)@ + track_bytes(track@),
    {
        self.write_u8(0x4D);
        self.write_u8(0x54);
        self.write_u8(0x72);
        self.write_u8(0x6B);
        proof {
            assert(self@ =~= old(self)@ + mtrk_magic());
        }

        let length_pos = self.data.len();
        self.write_u32(0);

        let n = track.events.len();
        let mut i: usize = 0;
        while i < n
            invariant
                i <= n,
                n == track.events@.len(),
                encodable_track(track@),
                length_pos + 4 <= self@.len(),
                self@ == old(self)@ + mtrk_magic() + be32_bytes(0) + events_bytes(
                    track@.events.take(i as int),
                ),
                length_pos == old(self)@.len() + 4,
            decreases n - i,
        {
            proof {
                assert(track@.events[i as int] == track.events@[i as int]@);
                assert(encodable_event(track@.events[i as int]));
            }
            self.write_event(&track.events[i]);
            proof {
                assert(track@.events.take(i + 1) =~= track@.events.take(i as int).push(
                    track@.events[i as int],
                ));
                crate::wire::lemma_events_bytes_push(
                    track@.events.take(i as int),
                    track@.events[i as int],
                );
                assert(self@ =~= old(self)@ + mtrk_magic() + be32_bytes(0) + events_bytes(
                    track@.events.take(i + 1),
                ));
            }
            i += 1;
        }
        proof {
            assert(track@.events.take(n as int) =~= track@.events);
        }

        let end_pos = self.data.len();
        let track_length = (end_pos - length_pos - 4) as u32;
        proof {
            assert(track_body_bytes(track@).len() <= u32::MAX);
            assert(track_length == track_body_bytes(track@).len());
        }
        let b = be32_exec(track_length);
        self.data[length_pos] = b.0;
        self.data[length_pos + 1] = b.1;
        self.data[length_pos + 2] = b.2;
        self.data[length_pos + 3] = b.3;
        proof {
            assert(final(self)@ =~= old(self)@ + track_bytes(track@));
        }
    }

    /// Serializes one timed event: the delta time, then the payload with
    /// an explicit status byte (running-status compression is not used on
    /// write).
    fn write_event(&mut self, event: &TrackEvent)
        requires
            encodable_event(event@),
        ensures
            final(self)@ == old(self)@ + event_bytes(event@),
    {
        self.write_vlq(event.delta_time);

        match &event.event {
            MidiEvent::Channel { channel, message } => {
                self.write_channel_event(*channel, message);
            },
            MidiEvent::System(SystemMessage::Meta(meta)) => {
                self.write_meta_event(meta);
            },
            MidiEvent::System(SystemMessage::SysEx(data)) => {
                self.write_u8(0xF0);
                self.write_vlq(data.len() as u32);
                self.write_bytes(data.as_slice());
            },
        }
        proof {
            assert(final(self)@ =~= old(self)@ + event_bytes(event@));
        }
    }

    /// Serializes a channel voice message: its status byte, then its data
    /// bytes.
    fn write_channel_event(&mut self, channel: u8, message: &ChannelMessage)
        requires
            encodable_message(message@),
        ensures
            final(self)@ == old(self)@ + seq![channel_status(channel, message@)]
                + channel_body_bytes(message@),
    {
        match message {
            ChannelMessage::NoteOff { note, velocity } => {
                self.write_u8(0x80 | channel);
                self.write_u8(*note);
                self.write_u8(*velocity);
            },
            ChannelMessage::NoteOn { note, velocity } => {
                self.write_u8(0x90 | channel);
                self.write_u8(*note);
                self.write_u8(*velocity);
            },
            ChannelMessage::PolyPressure { note, pressure } => {
                self.write_u8(0xA0 | channel);
                self.write_u8(*note);
                self.write_u8(*pressure);
            },
            ChannelMessage::ControlChange { controller, value } => {
                self.write_u8(0xB0 | channel);
                self.write_u8(*controller);
                self.write_u8(*value);
            },
            ChannelMessage::ProgramChange { program } => {
                self.write_u8(0xC0 | channel);
                self.write_u8(*program);
            },
            ChannelMessage::ChannelPressure { pressure } => {
                self.write_u8(0xD0 | channel);
                self.write_u8(*pressure);
            },
            ChannelMessage::PitchBend { value } => {
                let raw = value.to_raw() as u16;
                let lsb = (raw % 128) as u8;
                let msb = ((raw / 128) % 128) as u8;
                self.write_u8(0xE0 | channel);
                self.write_u8(lsb);
                self.write_u8(msb);
            },
        }
        proof {
            assert(final(self)@ =~= old(self)@ + seq![channel_status(channel, message@)]
                + channel_body_bytes(message@));
        }
    }

    /// Serializes a meta event: the 0xFF status byte, the meta type, and
    /// its length-prefixed body.
    fn write_meta_event(&mut self, meta: &MetaMessage)
        requires
            encodable_meta(meta@),
        ensures
            final(self)@ == old(self)@ + seq![0xFFu8] + meta_body_bytes(meta@),
    {
        self.write_u8(0xFF);

        match meta {
            MetaMessage::Tempo(tempo) => {
                self.write_u8(0x51);
                self.write_u8(3);
                self.write_u8(((*tempo / 0x10000) % 256) as u8);
                self.write_u8(((*tempo / 0x100) % 256) as u8);
                self.write_u8((*tempo % 256) as u8);
            },
            MetaMessage::TrackName(name) => {
                let bytes = name.as_str().as_bytes();
                self.write_u8(0x03);
                self.write_vlq(bytes.len() as u32);
                self.write_bytes(bytes);
            },
            MetaMessage::Raw { meta_type, data } => {
                self.write_u8(*meta_type);
                self.write_vlq(data.len() as u32);
                self.write_bytes(data.as_slice());
            },
            MetaMessage::TimeSignature { numerator, denominator, clocks_per_click, notes_per_quarter } => {
                self.write_u8(0x58);
                self.write_u8(4);
                self.write_u8(*numerator);
                let dd: u8 = if *denominator == 1 {
                    0
                } else if *denominator == 2 {
                    1
                } else if *denominator == 4 {
                    2
                } else if *denominator == 8 {
                    3
                } else if *denominator == 16 {
                    4
                } else if *denominator == 32 {
                    5
                } else if *denominator == 64 {
                    6
                } else {
                    7
                };
                proof {
                    assert(dd == denominator_exponent(*denominator));
                }
                self.write_u8(dd);
                self.write_u8(*clocks_per_click);
                self.write_u8(*notes_per_quarter);
            },
        }
        proof {
            assert(final(self)@ =~= old(self)@ + seq![0xFFu8] + meta_body_bytes(meta@));
        }
    }
}

/// The four big-endian bytes of a 32-bit value, as executable values.
fn be32_exec(value: u32) -> (r: (u8, u8, u8, u8))
    ensures
        seq![r.0, r.1, r.2, r.3] == be32_bytes(value),
{
    let r = (
        (value / 0x1000000) as u8,
        ((value / 0x10000) % 256) as u8,
        ((value / 256) % 256) as u8,
        (value % 256) as u8,
    );
    proof {
        assert(seq![r.0, r.1, r.2, r.3] =~= be32_bytes(value));
    }
    r
}

} // verus!
