use vstd::prelude::*;

use crate::error::MidiParseError;

verus! {

/// The largest value a 4-byte variable-length quantity can carry: 28 bits.
pub open spec fn vlq_max() -> u32 {
    0x0FFFFFFF
}

/// Powers of 128, the radix of variable-length quantities.
pub open spec fn pow128(k: nat) -> int
    decreases k,
{
    if k == 0 {
        1
    } else {
        128 * pow128((k - 1) as nat)
    }
}

/// The continuation groups of a variable-length quantity: the base-128
/// digits of `v`, most significant first, each with the high bit set.
pub open spec fn vlq_prefix(v: u32) -> Seq<u8>
    decreases v,
{
    if v == 0 {
        Seq::empty()
    } else {
        vlq_prefix(v / 128) + seq![((v % 128) + 128) as u8]
    }
}

/// The minimal variable-length encoding of `v`: continuation groups for all
/// but the last 7-bit group, then the final group with its high bit clear.
/// Zero encodes as a single zero byte.
pub open spec fn vlq_bytes(v: u32) -> Seq<u8> {
    vlq_prefix(v / 128) + seq![(v % 128) as u8]
}

/// One step of variable-length decoding: with `reads_left` byte reads
/// remaining, accumulate 7 bits per byte into `acc` until a byte with the
/// high bit clear arrives, or the read budget is spent (the lenient
/// truncation policy: after the fourth byte decoding stops rather than
/// erroring), or the buffer ends.
pub open spec fn vlq_parse_step(s: Seq<u8>, pos: int, acc: int, reads_left: nat) -> Result<
    (u32, int),
    MidiParseError,
>
    decreases reads_left,
{
    if reads_left == 0 {
        Ok((acc as u32, pos))
    } else if pos >= s.len() {
        Err(MidiParseError::UnexpectedEndOfData)
    } else {
        let acc2 = acc * 128 + (s[pos] % 128);
        if s[pos] < 128 {
            Ok((acc2 as u32, pos + 1))
        } else {
            vlq_parse_step(s, pos + 1, acc2, (reads_left - 1) as nat)
        }
    }
}

/// Decoding a variable-length quantity at `pos`: up to four bytes are read.
pub open spec fn vlq_parse(s: Seq<u8>, pos: int) -> Result<(u32, int), MidiParseError> {
    vlq_parse_step(s, pos, 0, 4)
}

/// The first few powers of 128, unfolded.
pub proof fn lemma_pow128_values()
    ensures
        pow128(0) == 1,
        pow128(1) == 128,
        pow128(2) == 16384,
        pow128(3) == 2097152,
        pow128(4) == 268435456,
{
    assert(pow128(1) == 128 * pow128(0));
    assert(pow128(2) == 128 * pow128(1));
    assert(pow128(3) == 128 * pow128(2));
    assert(pow128(4) == 128 * pow128(3));
}

/// A bound on the number of continuation groups: `v < 128^k` gives at most
/// `k` of them.
pub proof fn lemma_vlq_prefix_len(v: u32, k: nat)
    requires
        v < pow128(k),
    ensures
        vlq_prefix(v).len() <= k,
    decreases v,
{
    if v != 0 {
        assert(k > 0);
        assert(pow128(k) == 128 * pow128((k - 1) as nat));
        lemma_vlq_prefix_len(v / 128, (k - 1) as nat);
    }
}

/// The encoding of a value within the 4-byte cap has between 1 and 4 bytes.
pub proof fn lemma_vlq_bytes_len(v: u32)
    requires
        v <= vlq_max(),
    ensures
        1 <= vlq_bytes(v).len() <= 4,
{
    lemma_pow128_values();
    lemma_vlq_prefix_len(v / 128, 3);
}

/// Consuming the continuation groups of `hi` folds `hi` into the
/// accumulator: after the prefix the decoder continues at the following
/// byte with `acc * 128^n + hi`, where `n` is the number of groups.
proof fn lemma_vlq_step_consumes_prefix(s: Seq<u8>, pos: int, acc: int, hi: u32, reads_left: nat)
    requires
        0 <= pos,
        vlq_prefix(hi).len() <= reads_left,
        pos + vlq_prefix(hi).len() <= s.len(),
        s.subrange(pos, pos + vlq_prefix(hi).len()) == vlq_prefix(hi),
    ensures
        ({
            let n = vlq_prefix(hi).len();
            vlq_parse_step(s, pos, acc, reads_left) == vlq_parse_step(
                s,
                pos + n,
                acc * pow128(n as nat) + hi,
                (reads_left - n) as nat,
            )
        }),
    decreases hi,
{
    let n = vlq_prefix(hi).len();
    if hi == 0 {
        assert(n == 0);
        assert(pow128(0) == 1);
    } else {
        let hi2 = hi / 128;
        let m = vlq_prefix(hi2).len();
        assert(vlq_prefix(hi) == vlq_prefix(hi2) + seq![((hi % 128) + 128) as u8]);
        assert(n == m + 1);
        assert(s.subrange(pos, pos + m) == vlq_prefix(hi2)) by {
            assert forall|i: int| 0 <= i < m implies s.subrange(pos, pos + m)[i] == vlq_prefix(
                hi2,
            )[i] by {
                assert(s.subrange(pos, pos + n)[i] == vlq_prefix(hi)[i]);
            };
            assert(s.subrange(pos, pos + m) =~= vlq_prefix(hi2));
        };
        lemma_vlq_step_consumes_prefix(s, pos, acc, hi2, reads_left);
        let acc1 = acc * pow128(m as nat) + hi2;
        let b = s[pos + m];
        assert(b == ((hi % 128) + 128) as u8) by {
            assert(s.subrange(pos, pos + n)[m as int] == vlq_prefix(hi)[m as int]);
        };
        assert(b >= 128 && b % 128 == hi % 128);
        assert(vlq_parse_step(s, pos + m, acc1, (reads_left - m) as nat) == vlq_parse_step(
            s,
            pos + m + 1,
            acc1 * 128 + hi % 128,
            (reads_left - n) as nat,
        ));
        assert(acc1 * 128 + hi % 128 == acc * pow128(n as nat) + hi) by {
            let p = pow128(m as nat);
            assert(pow128(n as nat) == 128 * p);
            assert((acc * p + hi2) * 128 == acc * (128 * p) + hi2 * 128) by (nonlinear_arith);
            assert(hi2 * 128 + hi % 128 == hi);
        };
    }
}

/// Decoding inverts encoding: at any position of any buffer that carries the
/// minimal encoding of `v` (with `v` within the 4-byte cap), decoding
/// returns `v` and stops exactly past the encoding.
pub proof fn lemma_vlq_round_trip(s: Seq<u8>, pos: int, v: u32)
    requires
        v <= vlq_max(),
        0 <= pos,
        pos + vlq_bytes(v).len() <= s.len(),
        s.subrange(pos, pos + vlq_bytes(v).len()) == vlq_bytes(v),
    ensures
        vlq_parse(s, pos) == Ok::<(u32, int), MidiParseError>((v, pos + vlq_bytes(v).len())),
{
    let hi = v / 128;
    let n = vlq_prefix(hi).len();
    lemma_pow128_values();
    lemma_vlq_prefix_len(hi, 3);
    assert(s.subrange(pos, pos + n) == vlq_prefix(hi)) by {
        assert forall|i: int| 0 <= i < n implies s.subrange(pos, pos + n)[i] == vlq_prefix(hi)[i] by {
            assert(s.subrange(pos, pos + n + 1)[i] == vlq_bytes(v)[i]);
        };
        assert(s.subrange(pos, pos + n) =~= vlq_prefix(hi));
    };
    lemma_vlq_step_consumes_prefix(s, pos, 0, hi, 4);
    let b = s[pos + n];
    assert(b == (v % 128) as u8) by {
        assert(s.subrange(pos, pos + n + 1)[n as int] == vlq_bytes(v)[n as int]);
    };
    assert(vlq_parse_step(s, pos + n, hi as int, (4 - n) as nat) == Ok::<(u32, int), MidiParseError>((
        (hi * 128 + v % 128) as u32,
        pos + n + 1,
    )));
    assert(hi * 128 + v % 128 == v);
}

/// A successful decode consumes at least one and at most `reads_left` bytes
/// and never stops past the end of the buffer.
proof fn lemma_vlq_step_bounds(s: Seq<u8>, pos: int, acc: int, reads_left: nat)
    ensures
        vlq_parse_step(s, pos, acc, reads_left) matches Ok((v, p)) ==> pos <= p <= pos + reads_left
            && (p == pos || p <= s.len()),
    decreases reads_left,
{
    if reads_left > 0 && pos < s.len() && s[pos] >= 128 {
        lemma_vlq_step_bounds(s, pos + 1, acc * 128 + (s[pos] % 128), (reads_left - 1) as nat);
    }
}

/// A successful decode at a position inside the buffer advances by one to
/// four bytes and stops within the buffer.
pub proof fn lemma_vlq_parse_bounds(s: Seq<u8>, pos: int)
    ensures
        vlq_parse(s, pos) matches Ok((v, p)) ==> pos + 1 <= p <= pos + 4 && p <= s.len(),
{
    if pos < s.len() {
        lemma_vlq_step_bounds(s, pos + 1, (s[pos] % 128) as int, 3);
    }
}

} // verus!
