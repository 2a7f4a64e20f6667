use vstd::prelude::*;

use crate::error::MidiParseError;
use crate::vlq::{vlq_parse, vlq_parse_step};
use crate::wire::{be16_val, be32_val};

verus! {

/// Sequential, bounds-checked access over an immutable byte buffer: a
/// buffer and the offset of the next unread byte.
pub struct MidiParser<'a> {
    pub data: &'a [u8],
    pub position: usize,
}

impl<'a> MidiParser<'a> {
    /// A cursor at the start of the buffer.
    pub fn new(data: &'a [u8]) -> (r: MidiParser<'a>)
        ensures
            r.data@ == data@,
            r.position == 0,
    {
        MidiParser { data, position: 0 }
    }

    /// Reads the byte at the cursor and advances past it; fails without
    /// moving when the buffer is exhausted.
    pub fn read_u8_be(&mut self) -> (r: Result<u8, MidiParseError>)
        ensures
            final(self).data == old(self).data,
            old(self).position >= old(self).data@.len() ==> r == Err::<u8, MidiParseError>(
                MidiParseError::UnexpectedEndOfData,
            ) && final(self).position == old(self).position,
            old(self).position < old(self).data@.len() ==> r == Ok::<u8, MidiParseError>(
                old(self).data@[old(self).position as int],
            ) && final(self).position == old(self).position + 1,
    {
        if self.position >= self.data.len() {
            return Err(MidiParseError::UnexpectedEndOfData);
        }
        let value = self.data[self.position];
        self.position += 1;
        Ok(value)
    }

    /// Reads a big-endian 16-bit value and advances past its two bytes;
    /// fails without moving when fewer than two bytes remain.
    pub fn read_u16_be(&mut self) -> (r: Result<u16, MidiParseError>)
        ensures
            final(self).data == old(self).data,
            old(self).position + 2 > old(self).data@.len() ==> r == Err::<u16, MidiParseError>(
                MidiParseError::UnexpectedEndOfData,
            ) && final(self).position == old(self).position,
            old(self).position + 2 <= old(self).data@.len() ==> r == Ok::<u16, MidiParseError>(
                be16_val(
                    old(self).data@[old(self).position as int],
                    old(self).data@[old(self).position + 1],
                ),
            ) && final(self).position == old(self).position + 2,
    {
        if self.data.len() < 2 || self.position > self.data.len() - 2 {
            return Err(MidiParseError::UnexpectedEndOfData);
        }
        let b0 = self.data[self.position];
        let b1 = self.data[self.position + 1];
        self.position += 2;
        Ok((b0 as u16) * 256 + (b1 as u16))
    }

    /// Reads a big-endian 32-bit value and advances past its four bytes;
    /// fails without moving when fewer than four bytes remain.
    pub fn read_u32_be(&mut self) -> (r: Result<u32, MidiParseError>)
        ensures
            final(self).data == old(self).data,
            old(self).position + 4 > old(self).data@.len() ==> r == Err::<u32, MidiParseError>(
                MidiParseError::UnexpectedEndOfData,
            ) && final(self).position == old(self).position,
            old(self).position + 4 <= old(self).data@.len() ==> r == Ok::<u32, MidiParseError>(
                be32_val(
                    old(self).data@[old(self).position as int],
                    old(self).data@[old(self).position + 1],
                    old(self).data@[old(self).position + 2],
                    old(self).data@[old(self).position + 3],
                ),
            ) && final(self).position == old(self).position + 4,
    {
        if self.data.len() < 4 || self.position > self.data.len() - 4 {
            return Err(MidiParseError::UnexpectedEndOfData);
        }
        let b0 = self.data[self.position];
        let b1 = self.data[self.position + 1];
        let b2 = self.data[self.position + 2];
        let b3 = self.data[self.position + 3];
        self.position += 4;
        Ok((b0 as u32) * 0x1000000 + (b1 as u32) * 0x10000 + (b2 as u32) * 0x100 + (b3 as u32))
    }

    /// The byte at the cursor, without advancing.
    pub fn peek_u8_be(&self) -> (r: Result<u8, MidiParseError>)
        ensures
            self.position >= self.data@.len() ==> r == Err::<u8, MidiParseError>(
                MidiParseError::UnexpectedEndOfData,
            ),
            self.position < self.data@.len() ==> r == Ok::<u8, MidiParseError>(
                self.data@[self.position as int],
            ),
    {
        if self.position >= self.data.len() {
            return Err(MidiParseError::UnexpectedEndOfData);
        }
        Ok(self.data[self.position])
    }

    /// The big-endian 16-bit value at the cursor, without advancing.
    pub fn peek_u16_be(&self) -> (r: Result<u16, MidiParseError>)
        ensures
            self.position + 2 > self.data@.len() ==> r == Err::<u16, MidiParseError>(
                MidiParseError::UnexpectedEndOfData,
            ),
            self.position + 2 <= self.data@.len() ==> r == Ok::<u16, MidiParseError>(
                be16_val(self.data@[self.position as int], self.data@[self.position + 1]),
            ),
    {
        if self.data.len() < 2 || self.position > self.data.len() - 2 {
            return Err(MidiParseError::UnexpectedEndOfData);
        }
        let b0 = self.data[self.position];
        let b1 = self.data[self.position + 1];
        Ok((b0 as u16) * 256 + (b1 as u16))
    }

    /// The big-endian 32-bit value at the cursor, without advancing.
    pub fn peek_u32_be(&self) -> (r: Result<u32, MidiParseError>)
        ensures
            self.position + 4 > self.data@.len() ==> r == Err::<u32, MidiParseError>(
                MidiParseError::UnexpectedEndOfData,
            ),
            self.position + 4 <= self.data@.len() ==> r == Ok::<u32, MidiParseError>(
                be32_val(
                    self.data@[self.position as int],
                    self.data@[self.position + 1],
                    self.data@[self.position + 2],
                    self.data@[self.position + 3],
                ),
            ),
    {
        if self.data.len() < 4 || self.position > self.data.len() - 4 {
            return Err(MidiParseError::UnexpectedEndOfData);
        }
        let b0 = self.data[self.position];
        let b1 = self.data[self.position + 1];
        let b2 = self.data[self.position + 2];
        let b3 = self.data[self.position + 3];
        Ok((b0 as u32) * 0x1000000 + (b1 as u32) * 0x10000 + (b2 as u32) * 0x100 + (b3 as u32))
    }

    /// Matches and consumes an expected literal byte sequence: fails with
    /// `UnexpectedEndOfData` when the buffer is too short, with
    /// `InvalidHeader` on a mismatch, and advances past the literal on
    /// success.  The cursor does not move on failure.
    pub fn expect_bytes(&mut self, expected: &[u8]) -> (r: Result<(), MidiParseError>)
        ensures
            final(self).data == old(self).data,
            old(self).position + expected@.len() > old(self).data@.len() ==> r == Err::<
                (),
                MidiParseError,
            >(MidiParseError::UnexpectedEndOfData) && final(self).position == old(self).position,
            old(self).position + expected@.len() <= old(self).data@.len() ==> {
                let found = old(self).data@.subrange(
                    old(self).position as int,
                    old(self).position + expected@.len(),
                );
                if found == expected@ {
                    r == Ok::<(), MidiParseError>(()) && final(self).position == old(self).position
                        + expected@.len()
                } else {
                    r == Err::<(), MidiParseError>(MidiParseError::InvalidHeader)
                        && final(self).position == old(self).position
                }
            },
    {
        let n = expected.len();
        if n > self.data.len() || self.position > self.data.len() - n {
            return Err(MidiParseError::UnexpectedEndOfData);
        }
        let ghost found = self.data@.subrange(self.position as int, self.position + n);
        let mut i: usize = 0;
        while i < n
            invariant
                i <= n,
                self.data@.len() <= usize::MAX,
                self.position + n <= self.data@.len(),
                found == self.data@.subrange(self.position as int, self.position + n as int),
                forall|j: int| 0 <= j < i ==> found[j] == expected@[j],
                n == expected@.len(),
            decreases n - i,
        {
            if self.data[self.position + i] != expected[i] {
                proof {
                    assert(found[i as int] != expected@[i as int]);
                }
                return Err(MidiParseError::InvalidHeader);
            }
            proof {
                assert(found[i as int] == expected@[i as int]);
            }
            i += 1;
        }
        proof {
            assert(found =~= expected@);
        }
        self.position += n;
        Ok(())
    }

    /// Decodes a variable-length quantity: up to four bytes, seven value
    /// bits each, most significant group first, ending at the first byte
    /// whose high bit is clear (or after the fourth byte, leniently).
    pub fn read_vlq(&mut self) -> (r: Result<u32, MidiParseError>)
        ensures
            final(self).data == old(self).data,
            match r {
                Ok(v) => vlq_parse(old(self).data@, old(self).position as int) == Ok::<
                    (u32, int),
                    MidiParseError,
                >((v, final(self).position as int)) && old(self).position < final(self).position
                    <= old(self).position + 4 && final(self).position <= old(self).data@.len(),
                Err(e) => vlq_parse(old(self).data@, old(self).position as int) == Err::<
                    (u32, int),
                    MidiParseError,
                >(e) && (final(self).position == old(self).data@.len() || final(self).position
                    == old(self).position),
            },
    {
        let ghost s = self.data@;
        let ghost pos0 = self.position as int;
        let mut value: u32 = 0;
        let mut i: usize = 0;
        while i < 4
            invariant
                self.data == old(self).data,
                self.data@ == s,
                s == old(self).data@,
                pos0 == old(self).position as int,
                i <= 4,
                self.position == pos0 + i,
                i > 0 ==> self.position <= s.len(),
                value < crate::vlq::pow128(i as nat),
                vlq_parse(s, pos0) == vlq_parse_step(
                    s,
                    self.position as int,
                    value as int,
                    (4 - i) as nat,
                ),
            decreases 4 - i,
        {
            proof {
                crate::vlq::lemma_pow128_values();
            }
            let ghost pos_b = self.position as int;
            let ghost acc_b = value as int;
            let ghost rl = (4 - i) as nat;
            let byte = match self.read_u8_be() {
                Ok(b) => b,
                Err(e) => {
                    proof {
                        assert(vlq_parse_step(s, pos_b, acc_b, rl) == Err::<
                            (u32, int),
                            MidiParseError,
                        >(MidiParseError::UnexpectedEndOfData));
                    }
                    return Err(e);
                },
            };
            proof {
                assert(vlq_parse_step(s, pos_b, acc_b, rl) == {
                    let acc2 = acc_b * 128 + (s[pos_b] % 128);
                    if s[pos_b] < 128 {
                        Ok::<(u32, int), MidiParseError>((acc2 as u32, pos_b + 1))
                    } else {
                        vlq_parse_step(s, pos_b + 1, acc2, (rl - 1) as nat)
                    }
                });
            }
            value = value * 128 + ((byte % 128) as u32);
            if byte < 128 {
                return Ok(value);
            }
            i += 1;
        }
        Ok(value)
    }
}

} // verus!
