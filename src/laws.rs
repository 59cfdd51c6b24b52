//! Facts about the mixed buffer that hold for all inputs.
use vstd::prelude::*;
use crate::codec::{decode, encode, lemma_decode_encode, sample_of_bytes};
use crate::mixer::{
    div_toward_zero, framed_len, max_len, mix, mix_samples, mixed_sample, pad_to,
    sample_or_silence,
};

verus! {

/// Decoding the mixed buffer gives the mixed sample sequence.
pub proof fn lemma_decode_mix(b1: Seq<u8>, b2: Seq<u8>)
    ensures
        decode(mix(b1, b2)) == mix_samples(decode(b1), decode(b2)),
{
    lemma_decode_encode(mix_samples(decode(b1), decode(b2)));
}

/// A sample mixed with silence is the sample scaled by 0.9 and truncated
/// toward zero; it is never clipped.
pub proof fn lemma_mixed_with_silence(s: i16)
    ensures
        mixed_sample(s, 0i16) as int == div_toward_zero(9 * s as int, 10),
        mixed_sample(0i16, s) as int == div_toward_zero(9 * s as int, 10),
{
}

/// Mixing a buffer with an all-zero buffer of the same length gives, for
/// every kept sample, the first buffer's sample scaled by 0.9 and truncated toward
/// zero: attenuated, not the unchanged signal.
pub proof fn lemma_silence_identity(b1: Seq<u8>, b2: Seq<u8>)
    requires
        b1.len() == b2.len(),
        forall|i: int| 0 <= i < b2.len() ==> b2[i] == 0u8,
    ensures
        decode(mix(b1, b2)).len() == framed_len(decode(b1).len()),
        forall|i: int|
            0 <= i < decode(mix(b1, b2)).len() ==> #[trigger] decode(mix(b1, b2))[i] as int
                == div_toward_zero(9 * decode(b1)[i] as int, 10),
{
    lemma_decode_mix(b1, b2);
    let d1 = decode(b1);
    let d2 = decode(b2);
    assert forall|i: int| 0 <= i < d2.len() implies d2[i] == 0i16 by {
        assert(b2[2 * i] == 0u8 && b2[2 * i + 1] == 0u8);
        assert(sample_of_bytes(0u8, 0u8) == 0);
    }
    assert forall|i: int| 0 <= i < decode(mix(b1, b2)).len() implies #[trigger] decode(
        mix(b1, b2),
    )[i] as int == div_toward_zero(9 * d1[i] as int, 10) by {
        lemma_mixed_with_silence(d1[i]);
    }
}

/// Mixing is symmetric in its two buffers.
pub proof fn lemma_mix_symmetric(b1: Seq<u8>, b2: Seq<u8>)
    ensures
        mix(b1, b2) == mix(b2, b1),
{
    let a = decode(b1);
    let b = decode(b2);
    assert(mix_samples(a, b) =~= mix_samples(b, a));
}

/// No mixed sample has a magnitude above 32767, except where the two
/// samples at that position add up to -36409 or less: there 0.9 times the
/// sum clips to -32768.
pub proof fn lemma_clipping_bound(b1: Seq<u8>, b2: Seq<u8>)
    requires
        forall|i: int|
            0 <= i < mix_samples(decode(b1), decode(b2)).len() ==> sample_or_silence(decode(b1), i)
                + sample_or_silence(decode(b2), i) > -36409,
    ensures
        forall|i: int|
            0 <= i < decode(mix(b1, b2)).len() ==> -32767 <= #[trigger] decode(mix(b1, b2))[i]
                <= 32767,
{
    lemma_decode_mix(b1, b2);
}

/// Mixing with a shorter buffer is mixing with that buffer padded with
/// silence to the other's length; past the shorter buffer's end the mixed
/// samples are the longer buffer's samples scaled by 0.9, truncated toward zero.
pub proof fn lemma_padding(b1: Seq<u8>, b2: Seq<u8>)
    requires
        decode(b1).len() <= decode(b2).len(),
    ensures
        mix(b1, b2) == mix(encode(pad_to(decode(b1), decode(b2).len())), b2),
        forall|i: int|
            decode(b1).len() <= i < decode(mix(b1, b2)).len() ==> #[trigger] decode(
                mix(b1, b2),
            )[i] as int == div_toward_zero(9 * decode(b2)[i] as int, 10),
{
    let d1 = decode(b1);
    let d2 = decode(b2);
    let n = d2.len();
    let p = pad_to(d1, n);
    lemma_decode_encode(p);
    assert(pad_to(p, n) =~= pad_to(d1, n));
    assert(max_len(p.len(), n) == max_len(d1.len(), n));
    assert(mix_samples(p, d2) =~= mix_samples(d1, d2));
    lemma_decode_mix(b1, b2);
    assert forall|i: int| d1.len() <= i < decode(mix(b1, b2)).len() implies #[trigger] decode(
        mix(b1, b2),
    )[i] as int == div_toward_zero(9 * d2[i] as int, 10) by {
        lemma_mixed_with_silence(d2[i]);
    }
}

} // verus!
