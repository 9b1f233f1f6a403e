//! Meeting timestamps: reading an RFC 3339 stamp and writing its date and
//! minute back out.

use vstd::prelude::*;

use chrono::{Datelike, Timelike};

use crate::text::{pad_nat, push_all, spec_pad_nat, string_of};

verus! {

/// The calendar date and wall-clock minute of a timestamp, in the offset the
/// timestamp was written in.
#[derive(Debug, Clone, Copy, PartialEq, Eq, Structural)]
pub struct DateStamp {
    pub year: i32,
    pub month: u32,
    pub day: u32,
    pub hour: u32,
    pub minute: u32,
}

impl DateStamp {
    /// A four-digit year, a month, a day of the month, an hour and a minute.
    pub open spec fn wf(self) -> bool {
        &&& 0 <= self.year <= 9999
        &&& 1 <= self.month <= 12
        &&& 1 <= self.day <= 31
        &&& self.hour <= 23
        &&& self.minute <= 59
    }
}

/// Whether `chrono` accepts a string as an RFC 3339 date-time (the full
/// grammar, calendar validity and offset range included).
pub uninterp spec fn rfc3339_accepts(s: Seq<char>) -> bool;

/// The characters in `[a, b)` are all ASCII digits.
pub open spec fn ascii_digits(s: Seq<char>, a: int, b: int) -> bool {
    forall|i: int| a <= i < b ==> '0' <= #[trigger] s[i] <= '9'
}

/// The decimal number the characters in `[a, b)` spell.
pub open spec fn digits_value(s: Seq<char>, a: int, b: int) -> int
    decreases b - a,
{
    if b <= a {
        0
    } else {
        digits_value(s, a, b - 1) * 10 + (s[b - 1] as int - '0' as int)
    }
}

/// `chrono::DateTime::parse_from_rfc3339`, keeping the local date and minute.
/// The parser reads the fixed-width prefix `YYYY-MM-DDTHH:MM:SS` digit by
/// digit, so when it accepts, those digits are the fields, each within the
/// range a valid date and time allows. Which strings it accepts is left to
/// the name `rfc3339_accepts`.
#[verifier::external_body]
pub(crate) fn parse_rfc3339(s: &str) -> (r: Option<DateStamp>)
    ensures
        r.is_some() == rfc3339_accepts(s@),
        r matches Some(d) ==> {
            &&& d.wf()
            &&& s@.len() >= 19
            &&& ascii_digits(s@, 0, 4) && d.year == digits_value(s@, 0, 4)
            &&& ascii_digits(s@, 5, 7) && d.month == digits_value(s@, 5, 7)
            &&& ascii_digits(s@, 8, 10) && d.day == digits_value(s@, 8, 10)
            &&& ascii_digits(s@, 11, 13) && d.hour == digits_value(s@, 11, 13)
            &&& ascii_digits(s@, 14, 16) && d.minute == digits_value(s@, 14, 16)
        },
{
    match chrono::DateTime::parse_from_rfc3339(s) {
        Ok(dt) => Some(
            DateStamp {
                year: dt.year(),
                month: dt.month(),
                day: dt.day(),
                hour: dt.hour(),
                minute: dt.minute(),
            },
        ),
        Err(_) => None,
    }
}

/// `%Y-%m-%d %H<sep>%M`: the zero-padded date, a space, and the zero-padded
/// hour and minute joined by `sep`.
pub open spec fn spec_minute_stamp(d: DateStamp, sep: char) -> Seq<char> {
    spec_pad_nat(d.year as nat, 4) + seq!['-'] + spec_pad_nat(d.month as nat, 2) + seq!['-']
        + spec_pad_nat(d.day as nat, 2) + seq![' '] + spec_pad_nat(d.hour as nat, 2) + seq![sep]
        + spec_pad_nat(d.minute as nat, 2)
}

pub fn minute_stamp_chars(d: &DateStamp, sep: char) -> (r: Vec<char>)
    requires
        d.wf(),
    ensures
        r@ == spec_minute_stamp(*d, sep),
{
    let mut out = pad_nat(d.year as u64, 4);
    out.push('-');
    let m = pad_nat(d.month as u64, 2);
    push_all(&mut out, m.as_slice());
    out.push('-');
    let dd = pad_nat(d.day as u64, 2);
    push_all(&mut out, dd.as_slice());
    out.push(' ');
    let h = pad_nat(d.hour as u64, 2);
    push_all(&mut out, h.as_slice());
    out.push(sep);
    let mi = pad_nat(d.minute as u64, 2);
    push_all(&mut out, mi.as_slice());
    assert(out@ =~= spec_minute_stamp(*d, sep));
    out
}

/// `%Y-%m-%d %H<sep>%M` of a stamp.
pub fn minute_stamp(d: &DateStamp, sep: char) -> (r: String)
    requires
        d.wf(),
    ensures
        r@ == spec_minute_stamp(*d, sep),
{
    let v = minute_stamp_chars(d, sep);
    string_of(v.as_slice())
}

} // verus!
