use vstd::prelude::*;
use vstd::string::*;
use crate::errors::AtpError;

verus! {

/// An instant in UTC: seconds since the Unix epoch and nanoseconds within the
/// second (1_000_000_000 and above during a leap second).
pub type UtcInstant = (i64, u32);

/// What chrono's RFC 3339 parser makes of `text`: the instant it denotes, in
/// UTC, or the message of the parse error.
pub uninterp spec fn rfc3339_instant(text: Seq<char>) -> Result<UtcInstant, Seq<char>>;

/// Calls `chrono::DateTime::parse_from_rfc3339` on `text` and converts the
/// result to UTC seconds and nanoseconds, or the error to its message.  The
/// contract claims only that the answer is `rfc3339_instant(text)`: what
/// RFC 3339 admits is chrono's to decide, and is not stated here.
#[verifier::external_body]
fn parse_rfc3339(text: &str) -> (r: Result<UtcInstant, String>)
    ensures
        reading(r) == rfc3339_instant(text@),
{
    match chrono::DateTime::parse_from_rfc3339(text) {
        Ok(t) => {
            let u = t.with_timezone(&chrono::Utc);
            Ok((u.timestamp(), u.timestamp_subsec_nanos()))
        },
        Err(e) => Err(e.to_string()),
    }
}

/// The message of a time that could not be read.
pub open spec fn time_error_message(time: Seq<char>, reason: Seq<char>) -> Seq<char> {
    "Failed to parse time '"@ + time + "': "@ + reason
}

/// `r` is the observation instant decided from the two readings of `time`:
/// the reading of the text as given wins, then the reading with a "Z"
/// appended; failing both, the error names the text and the second reason.
pub open spec fn resolves(
    time: Seq<char>,
    direct: Result<UtcInstant, Seq<char>>,
    with_utc_suffix: Result<UtcInstant, Seq<char>>,
    r: Result<UtcInstant, AtpError>,
) -> bool {
    match (direct, with_utc_suffix) {
        (Ok(t), _) => r == Ok::<UtcInstant, AtpError>(t),
        (Err(_), Ok(t)) => r == Ok::<UtcInstant, AtpError>(t),
        (Err(_), Err(reason)) => r matches Err(AtpError::Time(m)) && m@ == time_error_message(
            time,
            reason,
        ),
    }
}

/// The reading of a parse, with the error as its message.
pub open spec fn reading(x: Result<UtcInstant, String>) -> Result<UtcInstant, Seq<char>> {
    match x {
        Ok(t) => Ok(t),
        Err(m) => Err(m@),
    }
}

/// Decides the observation instant of `time` from the two readings of it:
/// `direct`, of the text as given, and `with_utc_suffix`, of the text with a
/// "Z" (UTC) appended.  The direct reading wins; failing both, the error
/// names the text and the reason of the second failure.
pub fn resolve_observation_time(
    time: &str,
    direct: Result<UtcInstant, String>,
    with_utc_suffix: Result<UtcInstant, String>,
) -> (r: Result<UtcInstant, AtpError>)
    ensures
        resolves(time@, reading(direct), reading(with_utc_suffix), r),
{
    match direct {
        Ok(t) => Ok(t),
        Err(_) => match with_utc_suffix {
            Ok(t) => Ok(t),
            Err(reason) => {
                let mut m = String::from_str("Failed to parse time '");
                m.append(time);
                m.append("': ");
                m.append(reason.as_str());
                Err(AtpError::Time(m))
            },
        },
    }
}

/// Reads the observation instant from an RFC 3339 date and time.  A text
/// without an offset, such as "2018-01-01T04:00:00", is read as UTC.
pub fn parse_observation_time(time: &str) -> (r: Result<UtcInstant, AtpError>)
    ensures
        resolves(time@, rfc3339_instant(time@), rfc3339_instant(time@ + "Z"@), r),
{
    let direct = parse_rfc3339(time);
    let mut suffixed = String::from_str(time);
    suffixed.append("Z");
    let with_utc_suffix = parse_rfc3339(suffixed.as_str());
    resolve_observation_time(time, direct, with_utc_suffix)
}

} // verus!
