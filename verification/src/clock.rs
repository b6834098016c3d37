//! Time.
//!
//! An instant is a number of milliseconds since the Unix epoch, in UTC. The
//! clock is read, and instants are written out, by the `chrono` crate.

use vstd::prelude::*;

verus! {

/// What `chrono` writes for an instant in the pattern `%Y-%m-%d %H:%M:%S`, or
/// nothing where the instant lies outside the range of dates it can represent.
pub uninterp spec fn timestamp_text_spec(millis: i64) -> Option<Seq<char>>;

/// Reads the clock by `chrono::Utc::now`. The result is whatever the system
/// clock says: nothing is claimed of it. On a machine whose clock stands
/// before 1970 `Utc::now` does not return.
#[verifier::external_body]
pub(crate) fn utc_now_millis() -> (millis: i64) {
    chrono::Utc::now().timestamp_millis()
}

/// Writes an instant as date and time of day by `chrono::DateTime::format`.
/// The calendar arithmetic is chrono's and is only named here.
#[verifier::external_body]
pub(crate) fn timestamp_text(millis: i64) -> (text: Option<String>)
    ensures
        text is Some == timestamp_text_spec(millis) is Some,
        text is Some ==> text->0@ == timestamp_text_spec(millis)->0,
{
    chrono::DateTime::from_timestamp_millis(millis).map(
        |instant| instant.format("%Y-%m-%d %H:%M:%S").to_string(),
    )
}

/// The current instant, as the system clock gives it; the clock must not
/// stand before 1970.
pub fn now() -> (millis: i64) {
    utc_now_millis()
}

/// One instant as `YYYY-MM-DD HH:MM:SS`; instants that no calendar date
/// represents are written as `"?"`.
pub open spec fn display_time_spec(millis: i64) -> Seq<char> {
    match timestamp_text_spec(millis) {
        Some(text) => text,
        None => seq!['?'],
    }
}

/// Writes an instant as `YYYY-MM-DD HH:MM:SS`.
pub fn display_time(millis: i64) -> (text: Vec<char>)
    ensures
        text@ == display_time_spec(millis),
{
    match timestamp_text(millis) {
        Some(written) => crate::text::chars_of(written.as_str()),
        None => {
            let mut unknown: Vec<char> = Vec::new();
            unknown.push('?');
            unknown
        },
    }
}

} // verus!
