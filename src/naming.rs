//! Names of new recordings: the UTC time of their first data, in a form that file systems
//! accept, then the name that the user gave, if any.
use vstd::prelude::*;
use vstd::string::StringSliceAdditionalSpecFns;

use crate::format::push_str_bytes;

verus! {

/// The text `YYYY-MM-DDTHH-MM-SS.ffffffZ` of an instant, given in microseconds since the
/// Unix epoch.
pub uninterp spec fn path_safe_timestamp(datetime_us: i64) -> Seq<char>;

/// The instants that chrono's calendar covers for certain: about 146,000 years on either
/// side of the epoch, within its range of about 262,000 years.
pub open spec fn within_calendar(datetime_us: i64) -> bool {
    -0x4000_0000_0000_0000 <= datetime_us <= 0x4000_0000_0000_0000
}

/// Relies on chrono's `DateTime::from_timestamp_micros` (nothing only where the instant is
/// out of its date range) and on its `%FT%H-%M-%S%.6fZ` format of the UTC date and time,
/// which writes any year: the text depends on the instant alone.
#[verifier::external_body]
fn path_safe_utc_string(datetime_us: i64) -> (r: Option<String>)
    ensures
        r matches Some(text) ==> text@ == path_safe_timestamp(datetime_us),
        within_calendar(datetime_us) ==> r is Some,
{
    match chrono::DateTime::from_timestamp_micros(datetime_us) {
        Some(datetime) => Some(datetime.naive_utc().format("%FT%H-%M-%S%.6fZ").to_string()),
        None => None,
    }
}

/// The stem of a recording: the timestamp, then `_` and the name where one was given.
pub open spec fn stem_of(timestamp: Seq<u8>, name: Seq<u8>) -> Seq<u8> {
    if name.len() == 0 {
        timestamp
    } else {
        timestamp + seq![95u8] + name
    }
}

pub fn recording_stem(timestamp: &str, name: &str) -> (r: Vec<u8>)
    ensures
        r@ == stem_of(timestamp.spec_bytes(), name.spec_bytes()),
{
    let mut r: Vec<u8> = Vec::new();
    push_str_bytes(&mut r, timestamp);
    assert(r@ =~= timestamp.spec_bytes());
    if name.as_bytes().len() > 0 {
        r.push(95);
        push_str_bytes(&mut r, name);
        assert(r@ =~= timestamp.spec_bytes() + seq![95u8] + name.spec_bytes());
    }
    r
}

/// The stem of a recording whose first data came at `datetime_us` (microseconds since the
/// Unix epoch, UTC); nothing where the instant is beyond the calendar's range.
pub fn recording_stem_at(datetime_us: i64, name: &str) -> (r: Option<Vec<u8>>)
    ensures
        within_calendar(datetime_us) ==> r is Some,
        r matches Some(stem) ==> stem@ == stem_of(
            vstd::utf8::encode_utf8(path_safe_timestamp(datetime_us)),
            name.spec_bytes(),
        ),
{
    match path_safe_utc_string(datetime_us) {
        Some(timestamp) => Some(recording_stem(timestamp.as_str(), name)),
        None => None,
    }
}

} // verus!
