use lpcm_mixer::codec::{
    convert_i16_to_u8_bytes_le, convert_u8_to_i16_samples_le, sample_from_le_bytes,
    sample_to_le_bytes,
};
use lpcm_mixer::mixer::{
    mix_bytes, mix_one_frame, mix_one_sample, pad_with_silence, reconcile_lengths,
    SAMPLES_PER_FRAME,
};

fn bytes_of(samples: &[i16]) -> Vec<u8> {
    convert_i16_to_u8_bytes_le(samples.to_vec())
}

fn samples_of(bytes: &[u8]) -> Vec<i16> {
    convert_u8_to_i16_samples_le(bytes)
}

fn float_mix(s1: i16, s2: i16) -> i16 {
    let f1: f32 = (s1 as f32) / 32768.0f32;
    let f2: f32 = (s2 as f32) / 32768.0f32;
    let mut mixed = (f1 + f2) * 0.9;
    if mixed > 1.0 {
        mixed = 1.0;
    }
    if mixed < -1.0 {
        mixed = -1.0;
    }
    (mixed * 32768.0f32) as i16
}

#[test]
fn sample_mix_matches_normalized_float_pipeline() {
    for s in i16::MIN..=i16::MAX {
        assert_eq!(mix_one_sample(s, s), float_mix(s, s), "pair {} {}", s, s);
        if s < i16::MAX {
            assert_eq!(mix_one_sample(s, s + 1), float_mix(s, s + 1), "pair {} {}", s, s + 1);
        }
        assert_eq!(mix_one_sample(s, 0), float_mix(s, 0), "pair {} 0", s);
    }
}

#[test]
fn sample_mix_exact_values() {
    assert_eq!(mix_one_sample(1000, 2000), 2700);
    assert_eq!(mix_one_sample(-5, 0), -4);
    assert_eq!(mix_one_sample(5, 0), 4);
    assert_eq!(mix_one_sample(0, 0), 0);
    assert_eq!(mix_one_sample(32767, 32767), 32767);
    assert_eq!(mix_one_sample(-32768, -32768), -32768);
    assert_eq!(mix_one_sample(20000, 20000), 32767);
    assert_eq!(mix_one_sample(-20000, -20000), -32768);
    assert_eq!(mix_one_sample(32767, -32768), 0);
}

#[test]
fn output_length_follows_whole_frames_of_longer_input() {
    for n1 in 0usize..40 {
        for n2 in 0usize..40 {
            let out = mix_bytes(vec![1u8; n1], vec![2u8; n2]);
            let expected = 2 * ((n1.max(n2) / 2) / 4) * 4;
            assert_eq!(out.len(), expected, "lengths {} {}", n1, n2);
        }
    }
}

#[test]
fn empty_inputs_give_empty_output() {
    assert!(mix_bytes(Vec::new(), Vec::new()).is_empty());
}

#[test]
fn silence_attenuates_the_other_buffer() {
    let a: Vec<i16> = vec![0, 1, -1, 10, -10, 32767, -32768, 12345];
    let out = samples_of(&mix_bytes(bytes_of(&a), vec![0u8; 16]));
    assert_eq!(out, vec![0, 0, 0, 9, -9, 29490, -29491, 11110]);
    assert_ne!(out, a);
}

#[test]
fn mixing_is_symmetric() {
    let a: Vec<i16> = vec![100, -200, 32767, -32768, 7, 0, -1, 30000];
    let b: Vec<i16> = vec![-300, 400, 32767, -1, 9, 5, -32768, 30000];
    let ab = mix_bytes(bytes_of(&a), bytes_of(&b));
    let ba = mix_bytes(bytes_of(&b), bytes_of(&a));
    assert_eq!(ab, ba);
    assert_eq!(samples_of(&ab), vec![-180, 180, 32767, -29492, 14, 4, -29492, 32767]);
}

#[test]
fn full_scale_inputs_are_clipped() {
    let hi: Vec<i16> = vec![32767; 8];
    let out = samples_of(&mix_bytes(bytes_of(&hi), bytes_of(&hi)));
    assert_eq!(out, vec![32767; 8]);
    let lo: Vec<i16> = vec![-32768; 4];
    let out = samples_of(&mix_bytes(bytes_of(&lo), bytes_of(&lo)));
    assert_eq!(out, vec![-32768; 4]);
    let near: Vec<i16> = vec![-18204, -18204, -18205, -18205];
    let other: Vec<i16> = vec![-18204, -18205, -18204, -18205];
    let out = samples_of(&mix_bytes(bytes_of(&near), bytes_of(&other)));
    assert_eq!(out, vec![-32767, -32768, -32768, -32768]);
}

#[test]
fn short_buffer_is_padded_with_silence() {
    let short: Vec<i16> = vec![1000, -1000, 2000, -2000];
    let long: Vec<i16> = vec![100, 200, 300, 400, 500, -600, 700, -800, 900, 1000, 1100, -1200];
    let out = samples_of(&mix_bytes(bytes_of(&short), bytes_of(&long)));
    let mut padded = short.clone();
    padded.resize(12, 0);
    let out_padded = samples_of(&mix_bytes(bytes_of(&padded), bytes_of(&long)));
    assert_eq!(out, out_padded);
    assert_eq!(out.len(), 12);
    assert_eq!(&out[..4], &[990, -720, 2070, -1440]);
    assert_eq!(&out[4..], &[450, -540, 630, -720, 810, 900, 990, -1080]);
}

#[test]
fn trailing_partial_frame_is_dropped() {
    let a: Vec<i16> = vec![10, 20, 30, 40, 50, 60, 70, 80, 90];
    let b: Vec<i16> = vec![1, 2, 3, 4, 5, 6, 7, 8, 9];
    let out = samples_of(&mix_bytes(bytes_of(&a), bytes_of(&b)));
    assert_eq!(out.len(), 8);
    assert_eq!(out, vec![9, 19, 29, 39, 49, 59, 69, 79]);
}

#[test]
fn odd_trailing_byte_is_ignored() {
    let mut a = bytes_of(&[1000, 1000, 1000, 1000]);
    let without = mix_bytes(a.clone(), a.clone());
    a.push(0x7f);
    let with = mix_bytes(a.clone(), a);
    assert_eq!(with, without);
    assert_eq!(samples_of(&[0x34, 0x12, 0x56]), vec![0x1234]);
}

#[test]
fn decode_then_encode_reproduces_bytes() {
    let bytes: Vec<u8> = (0u16..512).map(|i| (i * 37 % 256) as u8).collect();
    assert_eq!(convert_i16_to_u8_bytes_le(samples_of(&bytes)), bytes);
    let samples: Vec<i16> = vec![0, 1, -1, 256, -256, 32767, -32768];
    assert_eq!(samples_of(&convert_i16_to_u8_bytes_le(samples.clone())), samples);
}

#[test]
fn codec_is_little_endian() {
    assert_eq!(sample_from_le_bytes(0x34, 0x12), 0x1234);
    assert_eq!(sample_from_le_bytes(0xff, 0xff), -1);
    assert_eq!(sample_from_le_bytes(0x00, 0x80), -32768);
    assert_eq!(sample_to_le_bytes(-2), (0xfe, 0xff));
    assert_eq!(sample_to_le_bytes(0x1234), (0x34, 0x12));
    assert_eq!(convert_i16_to_u8_bytes_le(vec![0x0102, -32768]), vec![0x02, 0x01, 0x00, 0x80]);
    for s in i16::MIN..=i16::MAX {
        assert_eq!(sample_to_le_bytes(s), (s.to_le_bytes()[0], s.to_le_bytes()[1]));
        let (lo, hi) = sample_to_le_bytes(s);
        assert_eq!(sample_from_le_bytes(lo, hi), s);
    }
}

#[test]
fn frame_mixer_appends_one_frame() {
    let a: Vec<i16> = vec![0, 0, 10, 20, 30, 40, 0];
    let b: Vec<i16> = vec![0, 0, 1, 2, 3, 4, 0];
    let mut out: Vec<i16> = vec![-7];
    mix_one_frame(SAMPLES_PER_FRAME, &mut out, 1, &a, &b, 2);
    assert_eq!(out, vec![-7, 9, 19, 29, 39]);
}

#[test]
fn reconciler_pads_the_shorter_sequence() {
    let mut a: Vec<i16> = vec![1, 2];
    let mut b: Vec<i16> = vec![3, 4, 5, 6, 7];
    assert_eq!(reconcile_lengths(&mut a, &mut b), 5);
    assert_eq!(a, vec![1, 2, 0, 0, 0]);
    assert_eq!(b, vec![3, 4, 5, 6, 7]);
    let mut c: Vec<i16> = vec![9, 9, 9];
    let mut d: Vec<i16> = Vec::new();
    assert_eq!(reconcile_lengths(&mut c, &mut d), 3);
    assert_eq!(d, vec![0, 0, 0]);
    let mut e: Vec<i16> = vec![-1];
    pad_with_silence(&mut e, 3);
    assert_eq!(e, vec![-1, 0, 0]);
}
