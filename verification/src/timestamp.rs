//! Civil UTC time, to second precision, with the fixed-width renderings
//! the signer and the task registry need.  Only reading the clock is
//! delegated; every rendering is verified.

use vstd::prelude::*;

use crate::text::{pad_dec, push_dec2, push_dec4};
use chrono::{Datelike, Timelike};

verus! {

/// A civil UTC date and time, to second precision.
#[derive(Clone, Copy, Debug, PartialEq, Eq, Structural)]
pub struct UtcTime {
    pub year: u16,
    pub month: u8,
    pub day: u8,
    pub hour: u8,
    pub minute: u8,
    pub second: u8,
}

impl UtcTime {
    /// Field ranges of a renderable civil time.
    pub open spec fn wf(&self) -> bool {
        &&& self.year <= 9999
        &&& 1 <= self.month <= 12
        &&& 1 <= self.day <= 31
        &&& self.hour <= 23
        &&& self.minute <= 59
        &&& self.second <= 59
    }
}

/// The compact date form `YYYYMMDD` used in the credential scope.
pub open spec fn spec_basic_date(t: UtcTime) -> Seq<char> {
    pad_dec(t.year as int, 4) + pad_dec(t.month as int, 2) + pad_dec(t.day as int, 2)
}

/// The compact timestamp form `YYYYMMDDTHHMMSSZ` carried in the signed
/// `x-amz-date` header.
pub open spec fn spec_basic_timestamp(t: UtcTime) -> Seq<char> {
    spec_basic_date(t) + seq!['T'] + pad_dec(t.hour as int, 2) + pad_dec(t.minute as int, 2)
        + pad_dec(t.second as int, 2) + seq!['Z']
}

/// The RFC 3339 form `YYYY-MM-DDTHH:MM:SS+00:00` recorded in task
/// timestamps.
pub open spec fn spec_rfc3339(t: UtcTime) -> Seq<char> {
    pad_dec(t.year as int, 4) + seq!['-'] + pad_dec(t.month as int, 2) + seq!['-'] + pad_dec(
        t.day as int,
        2,
    ) + seq!['T'] + pad_dec(t.hour as int, 2) + seq![':'] + pad_dec(t.minute as int, 2) + seq![':']
        + pad_dec(t.second as int, 2) + seq!['+', '0', '0', ':', '0', '0']
}

pub fn basic_date(t: &UtcTime) -> (r: String)
    requires
        t.wf(),
    ensures
        r@ == spec_basic_date(*t),
{
    let mut r = String::new();
    push_dec4(&mut r, t.year as u64);
    push_dec2(&mut r, t.month as u64);
    push_dec2(&mut r, t.day as u64);
    proof {
        assert(r@ =~= spec_basic_date(*t));
    }
    r
}

pub fn basic_timestamp(t: &UtcTime) -> (r: String)
    requires
        t.wf(),
    ensures
        r@ == spec_basic_timestamp(*t),
{
    let mut r = basic_date(t);
    crate::text::push_char(&mut r, 'T');
    push_dec2(&mut r, t.hour as u64);
    push_dec2(&mut r, t.minute as u64);
    push_dec2(&mut r, t.second as u64);
    crate::text::push_char(&mut r, 'Z');
    proof {
        assert(r@ =~= spec_basic_timestamp(*t));
    }
    r
}

pub fn rfc3339(t: &UtcTime) -> (r: String)
    requires
        t.wf(),
    ensures
        r@ == spec_rfc3339(*t),
{
    let mut r = String::new();
    push_dec4(&mut r, t.year as u64);
    crate::text::push_char(&mut r, '-');
    push_dec2(&mut r, t.month as u64);
    crate::text::push_char(&mut r, '-');
    push_dec2(&mut r, t.day as u64);
    crate::text::push_char(&mut r, 'T');
    push_dec2(&mut r, t.hour as u64);
    crate::text::push_char(&mut r, ':');
    push_dec2(&mut r, t.minute as u64);
    crate::text::push_char(&mut r, ':');
    push_dec2(&mut r, t.second as u64);
    crate::text::push_char(&mut r, '+');
    crate::text::push_char(&mut r, '0');
    crate::text::push_char(&mut r, '0');
    crate::text::push_char(&mut r, ':');
    crate::text::push_char(&mut r, '0');
    crate::text::push_char(&mut r, '0');
    proof {
        assert(r@ =~= spec_rfc3339(*t));
    }
    r
}

/// Relies on chrono's `Utc::now` and its `Datelike`/`Timelike`
/// accessors: whatever moment the clock reports, the month is 1 to 12,
/// the day 1 to 31, the hour below 24 and the minute and second below
/// 60.  Nothing is assumed about which moment comes back.
#[verifier::external_body]
fn utc_now_fields() -> (r: (i32, u8, u8, u8, u8, u8))
    ensures
        1 <= r.1 <= 12,
        1 <= r.2 <= 31,
        r.3 <= 23,
        r.4 <= 59,
        r.5 <= 59,
{
    let now = chrono::Utc::now();
    (
        now.year(),
        now.month() as u8,
        now.day() as u8,
        now.hour() as u8,
        now.minute() as u8,
        now.second() as u8,
    )
}

/// Reads the clock.  A year outside the four-digit range (never the
/// case between the years 1000 and 9999) is clamped so that the result
/// always renders.
pub fn utc_now() -> (t: UtcTime)
    ensures
        t.wf(),
{
    let (y, month, day, hour, minute, second) = utc_now_fields();
    let year: u16 = if y < 0 {
        0
    } else if y > 9999 {
        9999
    } else {
        y as u16
    };
    UtcTime { year, month, day, hour, minute, second }
}

} // verus!
