//! Importing an external audio file as if it had been recorded live: the
//! decoded audio goes through the same 5-minute rotation, capped in length,
//! and the result must account for the file's declared length. Decoding is
//! left to the caller.

use vstd::prelude::*;

use crate::error::{Error, Result};
use crate::recording::SegmentPlanner;
use crate::text::{chars_of, div_rem_i64, int_str, push_all, push_str, spec_int_str, string_of, tdiv};

verus! {

/// Hard ceiling on decoded import length. Meetings are 1–3 h; 6 h leaves
/// slack while bounding what a decompression bomb can expand to.
pub const MAX_IMPORT_HOURS: u64 = 6;

/// The ceiling in samples.
pub const MAX_IMPORT_SAMPLES: u64 = MAX_IMPORT_HOURS * 3600 * 16_000;

/// The rotation for an import: a fresh planner capped at six hours.
pub fn import_planner() -> (r: SegmentPlanner)
    ensures
        r.wf(),
        r.segments == 0 && !r.open && r.written == 0 && r.since_flush == 0 && r.seg_samples == 0,
        r.max_samples == Some(MAX_IMPORT_SAMPLES),
{
    SegmentPlanner::new().with_max_samples(MAX_IMPORT_SAMPLES)
}

/// The length a container declares, in whole milliseconds: its frame count
/// at its sample rate (kept to 64 bits as `as i64` does).
pub fn expected_duration_ms(frames: u64, rate: u32) -> (r: i64)
    requires
        rate > 0,
    ensures
        r == (frames as int * 1000 / rate as int) as i64,
{
    ((frames as i128) * 1000 / (rate as i128)) as i64
}

/// The container-declared length, when it declares both a frame count and
/// a sample rate.
pub fn declared_duration_ms(n_frames: Option<u64>, sample_rate: Option<u32>) -> (r: Option<i64>)
    requires
        n_frames is Some && sample_rate is Some ==> sample_rate->Some_0 > 0,
    ensures
        r == match (n_frames, sample_rate) {
            (Some(f), Some(rate)) => Some((f as int * 1000 / rate as int) as i64),
            _ => None::<i64>,
        },
{
    match (n_frames, sample_rate) {
        (Some(f), Some(rate)) => Some(expected_duration_ms(f, rate)),
        _ => None,
    }
}

/// The sample rate the import resamples from: the first decoded block's,
/// which every later block must keep.
pub fn stream_rate(fixed: Option<u32>, rate: u32) -> (r: Result<u32>)
    ensures
        match fixed {
            None => r == Ok::<u32, Error>(rate),
            Some(f) => if f == rate {
                r == Ok::<u32, Error>(f)
            } else {
                r matches Err(Error::Audio(m)) && m@
                    == "audio files with a changing sample rate are not supported"@
            },
        },
{
    match fixed {
        None => Ok(rate),
        Some(f) => {
            if f == rate {
                Ok(f)
            } else {
                Err(
                    Error::Audio(
                        string_of(
                            chars_of(
                                "audio files with a changing sample rate are not supported",
                            ).as_slice(),
                        ),
                    ),
                )
            }
        },
    }
}

/// The message for an import that decoded well short of its declared length.
pub open spec fn shortfall_message(decoded_ms: i64, expected_ms: i64) -> Seq<char> {
    "only "@ + spec_int_str(tdiv(decoded_ms as int, 1000)) + " s of the file's "@ + spec_int_str(
        tdiv(expected_ms as int, 1000),
    ) + " s could be decoded \u{2014} the file appears corrupt or truncated"@
}

/// Whether an import's decoded result stands: something was decoded, and,
/// when the container declared a positive length, at least 90% of it.
pub fn check_import(decoded_ms: i64, expected_ms: Option<i64>) -> (r: Result<()>)
    requires
        expected_ms matches Some(e) ==> e * 9 <= i64::MAX,
    ensures
        decoded_ms == 0 ==> (r matches Err(Error::Audio(m)) && m@
            == "no audio could be decoded from the file"@),
        decoded_ms != 0 && (expected_ms matches Some(e) && e > 0 && decoded_ms < tdiv(e * 9, 10))
            ==> (r matches Err(Error::Audio(m)) && m@ == shortfall_message(
            decoded_ms,
            expected_ms->Some_0,
        )),
        decoded_ms != 0 && !(expected_ms matches Some(e) && e > 0 && decoded_ms < tdiv(e * 9, 10))
            ==> r is Ok,
{
    if decoded_ms == 0 {
        return Err(Error::Audio(string_of(chars_of("no audio could be decoded from the file").as_slice())));
    }
    match expected_ms {
        Some(e) => {
            if e > 0 {
                let (floor90, _) = div_rem_i64(e * 9, 10);
                if decoded_ms < floor90 {
                    let (d_s, _) = div_rem_i64(decoded_ms, 1000);
                    let (e_s, _) = div_rem_i64(e, 1000);
                    let mut m = chars_of("only ");
                    let a = int_str(d_s);
                    push_all(&mut m, a.as_slice());
                    push_str(&mut m, " s of the file's ");
                    let b = int_str(e_s);
                    push_all(&mut m, b.as_slice());
                    push_str(&mut m, " s could be decoded \u{2014} the file appears corrupt or truncated");
                    assert(m@ =~= shortfall_message(decoded_ms, e));
                    return Err(Error::Audio(string_of(m.as_slice())));
                }
            }
        },
        None => {},
    }
    Ok(())
}

} // verus!
