//! Conversion between little-endian byte buffers and signed 16-bit samples.
use vstd::prelude::*;

verus! {

/// The value of a 16-bit two's-complement sample whose low byte is `lo` and high byte is `hi`.
pub open spec fn sample_of_bytes(lo: u8, hi: u8) -> int {
    let u = lo as int + 256 * hi as int;
    if u >= 0x8000 {
        u - 0x10000
    } else {
        u
    }
}

/// The sample's bit pattern read as an unsigned 16-bit number.
pub open spec fn unsigned_of(s: i16) -> int {
    if s < 0 {
        s as int + 0x10000
    } else {
        s as int
    }
}

/// The least significant byte of a sample.
pub open spec fn low_byte(s: i16) -> u8 {
    (unsigned_of(s) % 256) as u8
}

/// The most significant byte of a sample.
pub open spec fn high_byte(s: i16) -> u8 {
    (unsigned_of(s) / 256) as u8
}

/// The samples held by a byte buffer: consecutive byte pairs, least significant
/// byte first; a dangling last byte is dropped.
pub open spec fn decode(b: Seq<u8>) -> Seq<i16> {
    Seq::new(b.len() / 2, |i: int| sample_of_bytes(b[2 * i], b[2 * i + 1]) as i16)
}

/// The bytes of a sample sequence: two per sample, least significant byte first.
pub open spec fn encode(s: Seq<i16>) -> Seq<u8> {
    Seq::new(
        2 * s.len(),
        |j: int|
            if j % 2 == 0 {
                low_byte(s[j / 2])
            } else {
                high_byte(s[j / 2])
            },
    )
}

/// Reads one little-endian signed 16-bit sample from two bytes.
pub fn sample_from_le_bytes(lo: u8, hi: u8) -> (r: i16)
    ensures
        r as int == sample_of_bytes(lo, hi),
{
    let u: i32 = lo as i32 + 256 * (hi as i32);
    let v: i32 = if u >= 0x8000 {
        u - 0x10000
    } else {
        u
    };
    v as i16
}

/// Writes one signed 16-bit sample as two bytes, least significant first.
pub fn sample_to_le_bytes(s: i16) -> (r: (u8, u8))
    ensures
        r.0 == low_byte(s),
        r.1 == high_byte(s),
        sample_of_bytes(r.0, r.1) == s as int,
{
    let u: i32 = if s < 0 {
        s as i32 + 0x10000
    } else {
        s as i32
    };
    let lo: u8 = (u % 256) as u8;
    let hi: u8 = (u / 256) as u8;
    (lo, hi)
}

/// Decodes a byte buffer into its samples; an odd trailing byte is ignored.
pub fn convert_u8_to_i16_samples_le(bytes: &[u8]) -> (r: Vec<i16>)
    ensures
        r@ == decode(bytes@),
{
    let len: usize = bytes.len();
    let n: usize = len / 2;
    let mut out: Vec<i16> = Vec::with_capacity(n);
    let mut i: usize = 0;
    while i < n
        invariant
            n == bytes@.len() / 2,
            len == bytes@.len(),
            2 * n <= len,
            i <= n,
            out@ =~= decode(bytes@).subrange(0, i as int),
        decreases n - i,
    {
        let s = sample_from_le_bytes(bytes[2 * i], bytes[2 * i + 1]);
        out.push(s);
        i = i + 1;
    }
    out
}

/// Encodes samples as bytes, two per sample, least significant byte first.
pub fn convert_i16_to_u8_bytes_le(input_vec: Vec<i16>) -> (r: Vec<u8>)
    requires
        2 * input_vec@.len() <= usize::MAX,
    ensures
        r@ == encode(input_vec@),
{
    let mut result_vec: Vec<u8> = Vec::new();
    let mut i: usize = 0;
    while i < input_vec.len()
        invariant
            i <= input_vec@.len(),
            2 * input_vec@.len() <= usize::MAX,
            result_vec@ =~= encode(input_vec@).subrange(0, 2 * i as int),
        decreases input_vec@.len() - i,
    {
        let (lo, hi) = sample_to_le_bytes(input_vec[i]);
        result_vec.push(lo);
        result_vec.push(hi);
        i = i + 1;
    }
    result_vec
}

/// Decoding the encoding of a sample sequence gives the sequence back.
pub proof fn lemma_decode_encode(s: Seq<i16>)
    ensures
        decode(encode(s)) == s,
{
    let e = encode(s);
    assert forall|i: int| 0 <= i < s.len() implies #[trigger] decode(e)[i] == s[i] by {
        assert((2 * i) % 2 == 0 && (2 * i + 1) % 2 == 1 && (2 * i) / 2 == i && (2 * i + 1) / 2
            == i);
    }
    assert(decode(e) =~= s);
}

/// Encoding the decoding of an even-length byte buffer reproduces the buffer.
pub proof fn lemma_encode_decode(b: Seq<u8>)
    requires
        b.len() % 2 == 0,
    ensures
        encode(decode(b)) == b,
{
    let d = decode(b);
    assert forall|j: int| 0 <= j < b.len() implies #[trigger] encode(d)[j] == b[j] by {
        let k = j / 2;
        assert(2 * k == j || 2 * k + 1 == j);
        let lo = b[2 * k];
        let hi = b[2 * k + 1];
        assert(unsigned_of(d[k]) == lo as int + 256 * hi as int);
    }
    assert(encode(d) =~= b);
}

} // verus!
