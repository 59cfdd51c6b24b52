//! Mixing of two 16-bit PCM buffers: length reconciliation, per-frame and
//! per-sample mixing, and the byte-level driver.
use vstd::prelude::*;
use crate::codec::{convert_i16_to_u8_bytes_le, convert_u8_to_i16_samples_le, decode, encode};

verus! {

/// Number of samples in one frame of one channel.
pub const SAMPLES_PER_FRAME: usize = 4;

/// Integer division that rounds toward zero.
pub open spec fn div_toward_zero(x: int, d: int) -> int {
    if x >= 0 {
        x / d
    } else {
        -((-x) / d)
    }
}

/// Clamps a value into the signed 16-bit range.
pub open spec fn clip(x: int) -> int {
    if x > 32767 {
        32767
    } else if x < -32768 {
        -32768
    } else {
        x
    }
}

/// The sum of two samples scaled by 0.9, rounded toward zero, before clipping.
pub open spec fn attenuated_sum(s1: i16, s2: i16) -> int {
    div_toward_zero(9 * (s1 as int + s2 as int), 10)
}

/// One mixed sample.
///
/// Normalizing both samples to `[-1, 1)` (dividing by 32768), adding them,
/// scaling by 0.9, clamping to `[-1, 1]` and scaling back by 32768 with
/// truncation toward zero yields exactly this value, where a full positive
/// clip (32768) saturates to 32767.
pub open spec fn mixed_sample(s1: i16, s2: i16) -> i16 {
    clip(attenuated_sum(s1, s2)) as i16
}

/// The `i`-th sample of `s`, or silence past its end.
pub open spec fn sample_or_silence(s: Seq<i16>, i: int) -> i16 {
    if 0 <= i < s.len() {
        s[i]
    } else {
        0
    }
}

/// `s` extended with silence to length `n` (for `n` at least its length).
pub open spec fn pad_to(s: Seq<i16>, n: nat) -> Seq<i16> {
    Seq::new(n, |i: int| sample_or_silence(s, i))
}

/// The longer of two lengths.
pub open spec fn max_len(a: nat, b: nat) -> nat {
    if a >= b {
        a
    } else {
        b
    }
}

/// The number of samples covered by whole frames in a sequence of `n` samples.
pub open spec fn framed_len(n: nat) -> nat {
    (n / SAMPLES_PER_FRAME as nat) * SAMPLES_PER_FRAME as nat
}

/// The mixed samples of two sample sequences: the shorter one is padded with
/// silence, and only whole frames of the common length are mixed and kept.
pub open spec fn mix_samples(a: Seq<i16>, b: Seq<i16>) -> Seq<i16> {
    let n = max_len(a.len(), b.len());
    let pa = pad_to(a, n);
    let pb = pad_to(b, n);
    Seq::new(framed_len(n), |i: int| mixed_sample(pa[i], pb[i]))
}

/// The mixed buffer of two little-endian 16-bit PCM byte buffers.
pub open spec fn mix(b1: Seq<u8>, b2: Seq<u8>) -> Seq<u8> {
    encode(mix_samples(decode(b1), decode(b2)))
}

/// Mixes two samples: sum, attenuate by 0.9, clip to the 16-bit range.
pub fn mix_one_sample(sample_1: i16, sample_2: i16) -> (r: i16)
    ensures
        r == mixed_sample(sample_1, sample_2),
{
    let sum: i32 = sample_1 as i32 + sample_2 as i32;
    let scaled: i32 = if sum >= 0 {
        (9 * sum) / 10
    } else {
        -((9 * -sum) / 10)
    };
    if scaled > 32767 {
        32767
    } else if scaled < -32768 {
        -32768
    } else {
        scaled as i16
    }
}

/// Mixes the frame of `frame_size * num_channels` samples that starts at
/// `start` in both inputs, appending the mixed samples to `mixed`.
pub fn mix_one_frame(
    frame_size: usize,
    mixed: &mut Vec<i16>,
    num_channels: usize,
    samples_1: &[i16],
    samples_2: &[i16],
    start: usize,
)
    requires
        start + frame_size * num_channels <= samples_1@.len(),
        start + frame_size * num_channels <= samples_2@.len(),
    ensures
        final(mixed)@ == old(mixed)@ + Seq::new(
            (frame_size * num_channels) as nat,
            |k: int| mixed_sample(samples_1@[start + k], samples_2@[start + k]),
        ),
{
    let len_1: usize = samples_1.len();
    let samples_per_frame: usize = frame_size * num_channels;
    let ghost before = mixed@;
    let ghost frame = Seq::new(
        samples_per_frame as nat,
        |k: int| mixed_sample(samples_1@[start + k], samples_2@[start + k]),
    );
    let mut i: usize = 0;
    while i < samples_per_frame
        invariant
            i <= samples_per_frame,
            len_1 == samples_1@.len(),
            start + samples_per_frame <= samples_1@.len(),
            start + samples_per_frame <= samples_2@.len(),
            frame == Seq::new(
                samples_per_frame as nat,
                |k: int| mixed_sample(samples_1@[start + k], samples_2@[start + k]),
            ),
            mixed@ =~= before + frame.subrange(0, i as int),
        decreases samples_per_frame - i,
    {
        let s = mix_one_sample(samples_1[start + i], samples_2[start + i]);
        mixed.push(s);
        i = i + 1;
    }
    assert(frame.subrange(0, samples_per_frame as int) =~= frame);
}

/// Extends `samples` with silence up to `len` samples.
pub fn pad_with_silence(samples: &mut Vec<i16>, len: usize)
    requires
        old(samples)@.len() <= len,
    ensures
        final(samples)@ == pad_to(old(samples)@, len as nat),
{
    let ghost before = samples@;
    samples.resize(len, 0);
    assert(samples@ =~= pad_to(before, len as nat));
}

/// Pads the shorter of two sample sequences with silence so that both have
/// the length of the longer one, which is returned.
pub fn reconcile_lengths(a: &mut Vec<i16>, b: &mut Vec<i16>) -> (n: usize)
    ensures
        n == max_len(old(a)@.len(), old(b)@.len()),
        final(a)@ == pad_to(old(a)@, n as nat),
        final(b)@ == pad_to(old(b)@, n as nat),
{
    let ghost a0 = a@;
    let ghost b0 = b@;
    if a.len() < b.len() {
        let n = b.len();
        pad_with_silence(a, n);
        assert(b@ =~= pad_to(b0, n as nat));
        n
    } else {
        let n = a.len();
        pad_with_silence(b, n);
        assert(a@ =~= pad_to(a0, n as nat));
        n
    }
}

/// Mixes two little-endian 16-bit PCM byte buffers into one.
///
/// Both buffers are decoded (an odd trailing byte is dropped), the shorter
/// is padded with silence, every whole frame is mixed sample by sample, and
/// the mixed samples are encoded back; samples after the last whole frame are
/// left out.
pub fn mix_bytes(bytes_1: Vec<u8>, bytes_2: Vec<u8>) -> (r: Vec<u8>)
    ensures
        r@ == mix(bytes_1@, bytes_2@),
        r@.len() == 2 * framed_len(max_len(bytes_1@.len(), bytes_2@.len()) / 2),
{
    let n1: usize = bytes_1.len();
    let n2: usize = bytes_2.len();
    let mut a1_data = convert_u8_to_i16_samples_le(bytes_1.as_slice());
    let mut a2_data = convert_u8_to_i16_samples_le(bytes_2.as_slice());
    let ghost d1 = a1_data@;
    let ghost d2 = a2_data@;
    let num_samples = reconcile_lengths(&mut a1_data, &mut a2_data);
    let num_frames: usize = num_samples / SAMPLES_PER_FRAME;
    let ghost target = mix_samples(d1, d2);
    let mut mixed_data: Vec<i16> = Vec::new();
    let mut i: usize = 0;
    while i < num_frames
        invariant
            i <= num_frames,
            num_frames == num_samples / SAMPLES_PER_FRAME,
            num_samples == max_len(d1.len(), d2.len()),
            a1_data@ == pad_to(d1, num_samples as nat),
            a2_data@ == pad_to(d2, num_samples as nat),
            target == mix_samples(d1, d2),
            mixed_data@ =~= target.subrange(0, (i * SAMPLES_PER_FRAME) as int),
        decreases num_frames - i,
    {
        let start: usize = i * SAMPLES_PER_FRAME;
        mix_one_frame(
            SAMPLES_PER_FRAME,
            &mut mixed_data,
            1,
            a1_data.as_slice(),
            a2_data.as_slice(),
            start,
        );
        i = i + 1;
    }
    assert(mixed_data@ =~= target);
    proof {
        lemma_mix_length(bytes_1@, bytes_2@);
        assert(framed_len(max_len(n1 as nat, n2 as nat) / 2) <= max_len(n1 as nat, n2 as nat) / 2);
    }
    convert_i16_to_u8_bytes_le(mixed_data)
}

/// The mixed buffer holds two bytes for every sample of the whole frames of
/// the longer input: `2 * floor(floor(max(n1, n2) / 2) / 4) * 4` bytes.
pub proof fn lemma_mix_length(b1: Seq<u8>, b2: Seq<u8>)
    ensures
        mix(b1, b2).len() == 2 * framed_len(max_len(b1.len(), b2.len()) / 2),
        mix_samples(decode(b1), decode(b2)).len() == framed_len(
            max_len(b1.len(), b2.len()) / 2,
        ),
{
    assert(max_len(b1.len() / 2, b2.len() / 2) == max_len(b1.len(), b2.len()) / 2);
}

} // verus!
