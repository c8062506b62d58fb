//! Durations and points in time for a reader.

use vstd::prelude::*;

use crate::config::SampleDuration;

verus! {

/// The first second past the year 9999, which timestamps cannot show.
pub const END_OF_TIMESTAMPS: u64 = 253_402_300_800;

/// The text that `humantime` shows for a duration of whole milliseconds.
pub uninterp spec fn human_duration(millis: u64) -> Seq<char>;

/// The text that `humantime` shows for a point in time, given in whole seconds of Unix time.
pub uninterp spec fn rfc3339_utc(unix_seconds: u64) -> Seq<char>;

/// `humantime::format_duration`, shown as text. The result is a function of the duration alone;
/// which units it is composed of is left to the name, as `humantime` leaves it open.
#[verifier::external_body]
fn format_duration(millis: u64) -> (text: String)
    ensures
        text@ == human_duration(millis),
{
    humantime::format_duration(std::time::Duration::from_millis(millis)).to_string()
}

/// `humantime::format_rfc3339_seconds`, shown as text: the date and time of day in UTC, down to
/// the second. It shows the years up to 9999. The result is a function of the second alone; the
/// calendar behind it is left to the name.
#[verifier::external_body]
fn format_rfc3339_seconds(unix_seconds: u64) -> (text: String)
    requires
        unix_seconds < END_OF_TIMESTAMPS,
    ensures
        text@ == rfc3339_utc(unix_seconds),
{
    let time = std::time::UNIX_EPOCH + std::time::Duration::from_secs(unix_seconds);
    humantime::format_rfc3339_seconds(time).to_string()
}

impl SampleDuration {
    /// The duration for a reader.
    pub fn text(&self) -> (text: String)
        ensures
            text@ == human_duration(self.millis),
    {
        format_duration(self.millis)
    }
}

/// When a run took place.
#[derive(Debug)]
pub struct RunMetadata {
    pub generated_unix_seconds: u64,
    pub generated_utc: String,
}

impl RunMetadata {
    /// The metadata of a run at this second of Unix time.
    pub fn new(unix_seconds: u64) -> (metadata: Self)
        requires
            unix_seconds < END_OF_TIMESTAMPS,
        ensures
            metadata.generated_unix_seconds == unix_seconds,
            metadata.generated_utc@ == rfc3339_utc(unix_seconds),
    {
        RunMetadata {
            generated_unix_seconds: unix_seconds,
            generated_utc: format_rfc3339_seconds(unix_seconds),
        }
    }
}

} // verus!
