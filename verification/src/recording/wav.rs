//! The 16-bit mono PCM WAV framing Ogma records: the header, sample bytes,
//! and the arithmetic that repairs a segment whose header was never
//! finalized (crash mid-recording) from its file size. Reading and writing
//! the files is left to the caller.

use vstd::prelude::*;

use crate::error::{Error, Result};
use crate::text::{chars_of, push_str, string_of};

verus! {

/// Samples per second of every recorded segment.
pub const SAMPLE_RATE: u32 = 16_000;

/// Bytes before the sample data.
pub const HEADER_LEN: u64 = 44;

/// The two little-endian bytes of `n < 2^16`.
pub open spec fn le16(n: nat) -> Seq<u8> {
    seq![(n % 256) as u8, ((n / 256) % 256) as u8]
}

/// The four little-endian bytes of `n < 2^32`.
pub open spec fn le32(n: nat) -> Seq<u8> {
    seq![
        (n % 256) as u8,
        ((n / 256) % 256) as u8,
        ((n / 65536) % 256) as u8,
        ((n / 16777216) % 256) as u8,
    ]
}

/// The number the four little-endian bytes at `at` spell.
pub open spec fn le32_value(b: Seq<u8>, at: int) -> nat {
    (b[at] + 256 * b[at + 1] + 65536 * b[at + 2] + 16777216 * b[at + 3]) as nat
}

/// The canonical 44-byte header of a 16 kHz mono 16-bit PCM WAV file whose
/// sample data is `data_len` bytes long.
pub open spec fn spec_header(data_len: nat) -> Seq<u8> {
    seq![82u8, 73, 70, 70] + le32(36 + data_len) + seq![87u8, 65, 86, 69] + seq![
        102u8,
        109,
        116,
        32,
    ] + le32(16) + le16(1) + le16(1) + le32(SAMPLE_RATE as nat) + le32(SAMPLE_RATE as nat * 2)
        + le16(2) + le16(16) + seq![100u8, 97, 116, 97] + le32(data_len)
}

fn push_le16(out: &mut Vec<u8>, n: u16)
    ensures
        final(out)@ == old(out)@ + le16(n as nat),
{
    out.push((n % 256) as u8);
    out.push(((n / 256) % 256) as u8);
    assert(final(out)@ =~= old(out)@ + le16(n as nat));
}

fn push_le32(out: &mut Vec<u8>, n: u32)
    ensures
        final(out)@ == old(out)@ + le32(n as nat),
{
    out.push((n % 256) as u8);
    out.push(((n / 256) % 256) as u8);
    out.push(((n / 65536) % 256) as u8);
    out.push(((n / 16777216) % 256) as u8);
    assert(final(out)@ =~= old(out)@ + le32(n as nat));
}

/// The header for `data_len` bytes of samples.
pub fn header(data_len: u32) -> (h: Vec<u8>)
    requires
        data_len <= u32::MAX - 36,
    ensures
        h@ == spec_header(data_len as nat),
        h@.len() == HEADER_LEN,
        h@[20] == 1 && h@[21] == 0 && h@[22] == 1 && h@[23] == 0,
        le32_value(h@, 24) == SAMPLE_RATE && le32_value(h@, 28) == SAMPLE_RATE * 2,
        h@[32] == 2 && h@[33] == 0 && h@[34] == 16 && h@[35] == 0,
        le32_value(h@, 40) == data_len,
        le32_value(h@, 4) == data_len + 36,
{
    proof {
        lemma_header_format(data_len as nat);
        lemma_header_round_trip(data_len);
    }
    let mut h: Vec<u8> = Vec::new();
    h.push(82);
    h.push(73);
    h.push(70);
    h.push(70);
    push_le32(&mut h, 36 + data_len);
    h.push(87);
    h.push(65);
    h.push(86);
    h.push(69);
    h.push(102);
    h.push(109);
    h.push(116);
    h.push(32);
    push_le32(&mut h, 16);
    push_le16(&mut h, 1);
    push_le16(&mut h, 1);
    push_le32(&mut h, SAMPLE_RATE);
    push_le32(&mut h, SAMPLE_RATE * 2);
    push_le16(&mut h, 2);
    push_le16(&mut h, 16);
    h.push(100);
    h.push(97);
    h.push(116);
    h.push(97);
    push_le32(&mut h, data_len);
    assert(h@ =~= spec_header(data_len as nat));
    h
}

/// Reading back four little-endian bytes gives the number they encode.
pub proof fn lemma_le32_round_trip(n: u32)
    ensures
        le32_value(le32(n as nat), 0) == n,
{
    assert((n % 256) + 256 * ((n / 256) % 256) + 65536 * ((n / 65536) % 256) + 16777216 * ((n
        / 16777216) % 256) == n) by (bit_vector);
}

/// A header read back gives the data length it was written with (bytes
/// 40..44) and the RIFF size, 36 more (bytes 4..8).
pub proof fn lemma_header_round_trip(data_len: u32)
    requires
        data_len <= u32::MAX - 36,
    ensures
        spec_header(data_len as nat).len() == HEADER_LEN,
        le32_value(spec_header(data_len as nat), 40) == data_len,
        le32_value(spec_header(data_len as nat), 4) == data_len + 36,
{
    let h = spec_header(data_len as nat);
    lemma_le32_round_trip(data_len);
    lemma_le32_round_trip((data_len + 36) as u32);
    assert(h.subrange(40, 44) =~= le32(data_len as nat));
    assert(h.subrange(4, 8) =~= le32((36 + data_len) as nat));
}

/// The header describes the data as the samples are written: a RIFF/WAVE
/// file whose `fmt ` chunk (16 bytes) says PCM (format 1), one channel,
/// 16 000 samples a second, 32 000 bytes a second, 2-byte frames of 16-bit
/// samples, followed by the `data` chunk.
pub proof fn lemma_header_format(data_len: nat)
    ensures
        ({
            let h = spec_header(data_len);
            &&& h.len() == HEADER_LEN
            &&& h[0] == 82u8 && h[1] == 73u8 && h[2] == 70u8 && h[3] == 70u8
            &&& h[8] == 87u8 && h[9] == 65u8 && h[10] == 86u8 && h[11] == 69u8
            &&& h[12] == 102u8 && h[13] == 109u8 && h[14] == 116u8 && h[15] == 32u8
            &&& h[16] == 16u8 && h[17] == 0u8 && h[18] == 0u8 && h[19] == 0u8
            &&& h[20] == 1u8 && h[21] == 0u8
            &&& h[22] == 1u8 && h[23] == 0u8
            &&& le32_value(h, 24) == 16_000
            &&& le32_value(h, 28) == 32_000
            &&& h[32] == 2u8 && h[33] == 0u8
            &&& h[34] == 16u8 && h[35] == 0u8
            &&& h[36] == 100u8 && h[37] == 97u8 && h[38] == 116u8 && h[39] == 97u8
        }),
{
    let h = spec_header(data_len);
    let a = seq![82u8, 73, 70, 70] + le32(36 + data_len) + seq![87u8, 65, 86, 69] + seq![
        102u8,
        109,
        116,
        32,
    ];
    let f = le32(16) + le16(1) + le16(1) + le32(SAMPLE_RATE as nat) + le32(SAMPLE_RATE as nat * 2)
        + le16(2) + le16(16);
    let t = seq![100u8, 97, 116, 97] + le32(data_len);
    assert(h =~= a + f + t);
    assert(a.len() == 16);
    assert(f.len() == 20);
    assert(le32(16) =~= seq![16u8, 0, 0, 0]);
    assert(le16(1) =~= seq![1u8, 0]);
    assert(le16(2) =~= seq![2u8, 0]);
    assert(le16(16) =~= seq![16u8, 0]);
    assert(le32(16000) =~= seq![128u8, 62, 0, 0]);
    assert(le32(32000) =~= seq![0u8, 125, 0, 0]);
    assert(f =~= seq![16u8, 0, 0, 0, 1, 0, 1, 0, 128, 62, 0, 0, 0, 125, 0, 0, 2, 0, 16, 0]);
    assert(h[24] == 128u8 && h[25] == 62u8 && h[26] == 0u8 && h[27] == 0u8);
    assert(h[28] == 0u8 && h[29] == 125u8 && h[30] == 0u8 && h[31] == 0u8);
}

/// `u32::from_le_bytes` of the four bytes at `at`.
pub fn read_le32(bytes: &[u8], at: usize) -> (r: u32)
    requires
        at + 4 <= bytes@.len(),
    ensures
        r == le32_value(bytes@, at as int),
{
    let b0 = bytes[at] as u32;
    let b1 = bytes[at + 1] as u32;
    let b2 = bytes[at + 2] as u32;
    let b3 = bytes[at + 3] as u32;
    b0 + 256 * b1 + 65536 * b2 + 16777216 * b3
}

/// The little-endian bytes of the samples, two per sample.
pub open spec fn sample_bytes(samples: Seq<i16>) -> Seq<u8>
    decreases samples.len(),
{
    if samples.len() == 0 {
        Seq::empty()
    } else {
        sample_bytes(samples.drop_last()) + le16(
            (if samples.last() < 0 {
                samples.last() + 65536
            } else {
                samples.last() as int
            }) as nat,
        )
    }
}

/// The bytes a run of samples is written as (`i16::to_le_bytes` each).
pub fn samples_to_bytes(samples: &[i16]) -> (r: Vec<u8>)
    ensures
        r@ == sample_bytes(samples@),
        r@.len() == 2 * samples@.len(),
{
    let mut out: Vec<u8> = Vec::new();
    let mut i: usize = 0;
    while i < samples.len()
        invariant
            i <= samples@.len(),
            out@ == sample_bytes(samples@.subrange(0, i as int)),
            out@.len() == 2 * i,
        decreases samples.len() - i,
    {
        let s = samples[i];
        let u: u16 = if s < 0 {
            (s as i32 + 65536) as u16
        } else {
            s as u16
        };
        assert(samples@.subrange(0, i + 1).drop_last() =~= samples@.subrange(0, i as int));
        push_le16(&mut out, u);
        i = i + 1;
    }
    assert(samples@.subrange(0, i as int) =~= samples@);
    out
}

/// The data length a finalized header records for `samples` samples: two
/// bytes each, kept to the header's 32 bits.
pub fn finalized_data_len(samples: u64) -> (r: u32)
    requires
        samples <= u64::MAX / 2,
    ensures
        r == (samples * 2) % 0x1_0000_0000,
{
    let bytes = samples * 2;
    (bytes % 0x1_0000_0000) as u32
}

/// How a segment is repaired: cut to a whole number of samples after the
/// header, and given the header that records them.
#[derive(Debug, Clone)]
pub struct RepairPlan {
    /// The file's length after the repair.
    pub new_len: u64,
    /// The header to write over the first 44 bytes.
    pub header: Vec<u8>,
    /// The samples the repaired segment holds.
    pub samples: u64,
}

/// The data bytes a file of `file_len` bytes holds whole samples of: what
/// follows the header, less a trailing odd byte (a partial sample).
pub open spec fn repaired_data_len(file_len: u64) -> int {
    let d = file_len - HEADER_LEN;
    d - d % 2
}

/// The repair of a segment `path` of `file_len` bytes, or an error when the
/// file is too short to hold a header. Safe on healthy files too: a healthy
/// segment is planned unchanged. The header records the data length in its
/// 32 bits.
pub fn repair_plan(path: &str, file_len: u64) -> (r: Result<RepairPlan>)
    requires
        file_len < HEADER_LEN || repaired_data_len(file_len) % 0x1_0000_0000 <= u32::MAX - 36,
    ensures
        file_len < HEADER_LEN ==> (r matches Err(Error::Other(m)) && m@ == path@
            + " is too short to be a WAV segment"@),
        file_len >= HEADER_LEN ==> (r matches Ok(p) && p.new_len == HEADER_LEN
            + repaired_data_len(file_len) && p.samples == repaired_data_len(file_len) / 2
            && p.header@ == spec_header((repaired_data_len(file_len) % 0x1_0000_0000) as nat)),
{
    if file_len < HEADER_LEN {
        let mut m = chars_of(path);
        push_str(&mut m, " is too short to be a WAV segment");
        return Err(Error::Other(string_of(m.as_slice())));
    }
    let d = file_len - HEADER_LEN;
    let data_len = d - d % 2;
    let h = header((data_len % 0x1_0000_0000) as u32);
    Ok(RepairPlan { new_len: HEADER_LEN + data_len, header: h, samples: data_len / 2 })
}

/// Samples in a (healthy) segment of `file_len` bytes.
pub fn sample_count_of_len(file_len: u64) -> (r: u64)
    ensures
        r == (if file_len < HEADER_LEN {
            0
        } else {
            (file_len - HEADER_LEN) / 2
        }),
{
    file_len.saturating_sub(HEADER_LEN) / 2
}

/// Whole milliseconds of audio in `samples` samples at 16 kHz.
pub open spec fn spec_samples_ms(samples: nat) -> int {
    (samples * 1000 / SAMPLE_RATE as nat) as int
}

/// Milliseconds of audio in a segment of `file_len` bytes.
pub fn duration_ms(file_len: u64) -> (r: i64)
    requires
        (if file_len < HEADER_LEN {
            0
        } else {
            (file_len - HEADER_LEN) / 2
        }) * 1000 <= u64::MAX,
    ensures
        r == spec_samples_ms(
            (if file_len < HEADER_LEN {
                0
            } else {
                (file_len - HEADER_LEN) / 2
            }) as nat,
        ),
{
    let n = sample_count_of_len(file_len);
    (n * 1000 / SAMPLE_RATE as u64) as i64
}

} // verus!
