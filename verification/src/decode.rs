//! Raw PCM decoding.
//!
//! The collector uploads audio as signed 16-bit little-endian stereo PCM at
//! 48 kHz, and the transcription pipeline takes mono 16-bit samples at the
//! same rate. This module owns the stereo to mono downmix and nothing else.

use vstd::prelude::*;

verus! {

/// The signed value of a 16-bit two's complement sample, low byte first.
pub open spec fn sample(lo: u8, hi: u8) -> int {
    let unsigned = hi * 256 + lo;
    if unsigned < 0x8000 {
        unsigned
    } else {
        unsigned - 0x1_0000
    }
}

/// Half of `x`, rounded toward zero.
pub open spec fn half_toward_zero(x: int) -> int {
    if x >= 0 {
        x / 2
    } else {
        -((-x) / 2)
    }
}

/// The mono sample of the stereo frame that starts at byte `at`.
pub open spec fn frame_average(raw: Seq<u8>, at: int) -> int {
    half_toward_zero(sample(raw[at], raw[at + 1]) + sample(raw[at + 2], raw[at + 3]))
}

/// One averaged sample per whole frame; a trailing partial frame is dropped.
pub open spec fn mono(raw: Seq<u8>) -> Seq<i16> {
    Seq::new(raw.len() / 4, |i: int| frame_average(raw, 4 * i) as i16)
}

fn decode_sample(lo: u8, hi: u8) -> (s: i32)
    ensures
        s == sample(lo, hi),
        -0x8000 <= s < 0x8000,
{
    let unsigned: i32 = hi as i32 * 256 + lo as i32;
    if unsigned < 0x8000 {
        unsigned
    } else {
        unsigned - 0x1_0000
    }
}

/// Decode interleaved s16le stereo bytes into mono s16 samples.
///
/// The two channels of a frame are averaged in 32 bits, so that two channels
/// near saturation do not overflow. Trailing bytes that do not form a whole
/// frame of four bytes are dropped.
pub fn decode_stereo_to_mono_i16(raw: &[u8]) -> (out: Vec<i16>)
    ensures
        out@ == mono(raw@),
        forall|i: int|
            0 <= i < out.len() ==> #[trigger] out[i] as int == frame_average(raw@, 4 * i),
{
    let len: usize = raw.len();
    let frames: usize = len / 4;
    let mut out: Vec<i16> = Vec::with_capacity(frames);
    let mut i: usize = 0;
    while i < frames
        invariant
            len == raw@.len(),
            frames == len / 4,
            i <= frames,
            out@.len() == i,
            forall|k: int|
                0 <= k < i ==> #[trigger] out@[k] as int == frame_average(raw@, 4 * k),
        decreases frames - i,
    {
        let at: usize = 4 * i;
        let sum: i32 = decode_sample(raw[at], raw[at + 1]) + decode_sample(
            raw[at + 2],
            raw[at + 3],
        );
        let average: i32 = if sum >= 0 {
            sum / 2
        } else {
            -((-sum) / 2)
        };
        out.push(average as i16);
        i = i + 1;
    }
    assert(out@ =~= mono(raw@));
    out
}

/// Decoding whole frames piecewise gives the same samples as decoding them at
/// once: when `a` ends on a frame boundary, nothing is lost between `a` and `b`.
pub proof fn decode_splits_on_frame_boundary(a: Seq<u8>, b: Seq<u8>)
    requires
        a.len() % 4 == 0,
    ensures
        mono(a + b) == mono(a) + mono(b),
{
    let whole = mono(a + b);
    let parts = mono(a) + mono(b);
    assert((a.len() + b.len()) / 4 == a.len() / 4 + b.len() / 4);
    assert forall|i: int| 0 <= i < whole.len() implies whole[i] == parts[i] by {
        if i < mono(a).len() {
            assert((a + b).subrange(4 * i, 4 * i + 4) =~= a.subrange(4 * i, 4 * i + 4));
        } else {
            let j = i - mono(a).len();
            assert(4 * i - a.len() == 4 * j);
        }
    }
    assert(whole =~= parts);
}

/// There is one sample for every whole frame of four bytes; what is left over
/// behind the last whole frame does not count.
pub proof fn whole_frames_give_one_sample_each(raw: Seq<u8>, rest: Seq<u8>)
    requires
        raw.len() % 4 == 0,
        rest.len() < 4,
    ensures
        4 * mono(raw).len() == raw.len(),
        mono(raw + rest) == mono(raw),
{
    assert forall|i: int| 0 <= i < raw.len() / 4 implies #[trigger] mono(raw + rest)[i] == mono(
        raw,
    )[i] by {
        assert(frame_average(raw + rest, 4 * i) == frame_average(raw, 4 * i));
    }
    assert(mono(raw + rest) =~= mono(raw));
}

/// What a mono sample is, of the four bytes of its frame: with both channels
/// read as little-endian two's complement, twice the sample is their sum, or
/// next to it on the side of zero where the sum is odd. There is one sample for
/// every whole frame.
pub proof fn samples_are_halved_sums(raw: Seq<u8>, i: int)
    requires
        0 <= i < raw.len() / 4,
    ensures
        mono(raw).len() == raw.len() / 4,
        ({
            let l = raw[4 * i] + 256 * raw[4 * i + 1] - (if raw[4 * i + 1] >= 128 {
                65536int
            } else {
                0
            });
            let r = raw[4 * i + 2] + 256 * raw[4 * i + 3] - (if raw[4 * i + 3] >= 128 {
                65536int
            } else {
                0
            });
            let m = mono(raw)[i];
            &&& l + r >= 0 ==> 2 * m <= l + r < 2 * m + 2
            &&& l + r < 0 ==> 2 * m - 2 < l + r <= 2 * m
        }),
{
    let l = sample(raw[4 * i], raw[4 * i + 1]);
    let r = sample(raw[4 * i + 2], raw[4 * i + 3]);
    assert(-0x8000 <= l < 0x8000 && -0x8000 <= r < 0x8000);
    let a = frame_average(raw, 4 * i);
    assert(-0x8000 <= a < 0x8000);
    assert(mono(raw)[i] == a as i16);
}

/// A frame's average lies between its two channels.
pub proof fn average_lies_between_channels(raw: Seq<u8>, at: int)
    ensures
        ({
            let l = sample(raw[at], raw[at + 1]);
            let r = sample(raw[at + 2], raw[at + 3]);
            let lo = if l <= r { l } else { r };
            let hi = if l <= r { r } else { l };
            lo <= frame_average(raw, at) <= hi
        }),
{
}

} // verus!
