//! Times as the ledger writes them, and run identifiers, which carry their time.

use vstd::prelude::*;
use crate::load::{hyphenated_name, uuid_form};

verus! {

/// The first second that has no form with a year of four digits.
pub const END_OF_YEARS: u64 = 253_402_300_800;

/// The form that RFC 3339 gives, to the second and in UTC, the moment that is so many seconds
/// after the beginning of 1970.
pub uninterp spec fn rfc3339(seconds: u64) -> Seq<char>;

/// `humantime::format_rfc3339_seconds` on the moment that is `seconds` after the beginning of
/// 1970. The form depends on that number alone. The formatter fails from the year 10000 on.
#[verifier::external_body]
fn format_seconds(seconds: u64) -> (r: String)
    requires
        seconds < END_OF_YEARS,
    ensures
        r@ == rfc3339(seconds),
{
    let moment = std::time::UNIX_EPOCH + std::time::Duration::from_secs(seconds);
    humantime::format_rfc3339_seconds(moment).to_string()
}

/// The form of a moment; none from the year 10000 on.
pub fn timestamp(seconds: u64) -> (r: Option<String>)
    ensures
        match r {
            Some(s) => seconds < END_OF_YEARS && s@ == rfc3339(seconds),
            None => seconds >= END_OF_YEARS,
        },
{
    if seconds >= END_OF_YEARS {
        return None;
    }
    Some(format_seconds(seconds))
}

/// `std::time::SystemTime`, a reading of the clock.
#[verifier::external_type_specification]
#[verifier::external_body]
pub struct ExSystemTime(std::time::SystemTime);

/// `std::time::SystemTime::now`, the clock of the machine: nothing is known of what it says.
pub assume_specification[ std::time::SystemTime::now ]() -> (r: std::time::SystemTime)
;

/// `std::time::SystemTime::duration_since` the beginning of 1970, in whole seconds; none before.
/// What a reading stands for is left open.
#[verifier::external_body]
fn seconds_since_1970(t: std::time::SystemTime) -> (r: Option<u64>) {
    t.duration_since(std::time::UNIX_EPOCH).ok().map(|d| d.as_secs())
}

/// The form of what a clock says, which says nothing where it stands before 1970; none there and
/// from the year 10000 on.
pub fn clock_rfc3339(reading: Option<u64>) -> (r: Option<String>)
    ensures
        match r {
            Some(s) => reading matches Some(seconds) && seconds < END_OF_YEARS && s@ == rfc3339(
                seconds,
            ),
            None => reading matches Some(seconds) ==> seconds >= END_OF_YEARS,
        },
{
    match reading {
        Some(seconds) => timestamp(seconds),
        None => None,
    }
}

/// The form of the present moment; none where the clock stands before 1970 or beyond the year
/// 9999.
pub fn now_rfc3339() -> (r: Option<String>)
    ensures
        r matches Some(s) ==> exists|seconds: u64|
            seconds < END_OF_YEARS && s@ == #[trigger] rfc3339(seconds),
{
    clock_rfc3339(seconds_since_1970(std::time::SystemTime::now()))
}

// ---- run identifiers ----

/// The number that a text spells as a UUID, or what is said of a text that spells none.
pub uninterp spec fn uuid_parsed(s: Seq<char>) -> Result<u128, Seq<char>>;

/// `uuid::Uuid::parse_str`, the number by `as_u128`, the error as the text of its `Display`. Both
/// depend on the text alone.
#[verifier::external_body]
fn parse_uuid(s: &str) -> (r: Result<u128, String>)
    ensures
        match r {
            Ok(id) => uuid_parsed(s@) == Ok::<u128, Seq<char>>(id),
            Err(e) => uuid_parsed(s@) == Err::<u128, Seq<char>>(e@),
        },
{
    uuid::Uuid::parse_str(s).map(|u| u.as_u128()).map_err(|e| e.to_string())
}

/// The version of a UUID.
pub open spec fn uuid_version(id: u128) -> u128 {
    (id >> 76) & 0xf
}

/// Whether a text is an identifier as they are generated for runs: a UUID of version 7.
pub open spec fn generated_id(s: Seq<char>) -> bool {
    match uuid_parsed(s) {
        Ok(id) => uuid_version(id) == 7,
        Err(_) => false,
    }
}

/// The beginning of 1970 in steps of 100 nanoseconds after the beginning of the Gregorian calendar.
pub const TICKS_AT_1970: u64 = 122_192_928_000_000_000;

/// The steps of 100 nanoseconds after the beginning of the Gregorian calendar that a UUID of version
/// 1 or 6 says: version 6 has them from the highest bits down, version 1 the other way round in
/// three parts.
pub open spec fn uuid_ticks(id: u128) -> int {
    let first = (id >> 96) as int;
    let second = ((id >> 80) & 0xffff) as int;
    let third = ((id >> 64) & 0xfff) as int;
    if uuid_version(id) == 1 {
        third * 0x1_0000_0000_0000 + second * 0x1_0000_0000 + first
    } else {
        first * 0x1000_0000 + second * 0x1000 + third
    }
}

/// The whole seconds after the beginning of 1970 of a number of such steps. Those before 1970 count
/// round from the end of 64 bits.
pub open spec fn tick_seconds(ticks: int) -> u64 {
    if ticks >= TICKS_AT_1970 {
        ((ticks - TICKS_AT_1970) / 10_000_000) as u64
    } else {
        ((ticks - TICKS_AT_1970 + 0x1_0000_0000_0000_0000) / 10_000_000) as u64
    }
}

/// The whole seconds after the beginning of 1970 that a UUID says, where it says any. One of
/// version 7 begins with the milliseconds.
pub open spec fn uuid_seconds(id: u128) -> Option<u64> {
    if uuid_version(id) == 7 {
        Some(((id >> 80) / 1000) as u64)
    } else if uuid_version(id) == 1 || uuid_version(id) == 6 {
        Some(tick_seconds(uuid_ticks(id)))
    } else {
        None
    }
}

/// `uuid::Uuid::get_timestamp`, in whole seconds by `Timestamp::to_unix`. A UUID of version 7 has
/// the milliseconds in its first 48 bits, one of version 1 or 6 has ticks of 100 nanoseconds since
/// 1582, and no other has a timestamp.
#[verifier::external_body]
fn seconds_of_uuid(id: u128) -> (r: Option<u64>)
    ensures
        r == uuid_seconds(id),
{
    uuid::Uuid::from_u128(id).get_timestamp().map(|t| t.to_unix().0)
}

/// `uuid::Uuid::now_v7` in its hyphenated form: a UUID of version 7 that reads back, in lower-case
/// hexadecimal digits with hyphens between its five groups. Which one depends on the clock and on chance. The call fails where the
/// clock stands before 1970, and where the machine gives no random numbers.
#[verifier::external_body]
fn fresh_uuid() -> (r: String)
    ensures
        uuid_form(r@),
        generated_id(r@),
{
    uuid::Uuid::now_v7().to_string()
}

/// A new run identifier, exactly where the clock was read to stand at 1970 or later.
fn run_id_at(reading: Option<u64>) -> (r: Option<String>)
    ensures
        r is Some <==> reading is Some,
        r matches Some(s) ==> uuid_form(s@) && hyphenated_name(s@) && generated_id(s@),
{
    match reading {
        Some(_) => Some(fresh_uuid()),
        None => None,
    }
}

/// A new run identifier; none where the clock stands before 1970.
pub fn new_run_id() -> (r: Option<String>)
    ensures
        r matches Some(s) ==> uuid_form(s@) && hyphenated_name(s@) && generated_id(s@),
{
    run_id_at(seconds_since_1970(std::time::SystemTime::now()))
}

/// What a run identifier says of its time.
#[derive(Debug)]
pub enum RunTime {
    /// The text is no UUID.
    NoUuid(String),
    /// The UUID has no timestamp.
    NoTime,
    /// The run began so many seconds after the beginning of 1970.
    At(u64),
}

/// Reads the time of a run out of its identifier.
pub fn run_time(run_id: &str) -> (r: RunTime)
    ensures
        match r {
            RunTime::NoUuid(e) => uuid_parsed(run_id@) == Err::<u128, Seq<char>>(e@),
            RunTime::NoTime => uuid_parsed(run_id@) matches Ok(id) && uuid_seconds(id) is None,
            RunTime::At(seconds) => uuid_parsed(run_id@) matches Ok(id) && uuid_seconds(id)
                == Some(seconds),
        },
{
    match parse_uuid(run_id) {
        Err(e) => RunTime::NoUuid(e),
        Ok(id) => match seconds_of_uuid(id) {
            None => RunTime::NoTime,
            Some(seconds) => RunTime::At(seconds),
        },
    }
}

/// An identifier that was generated for a run says when the run began.
pub proof fn law_generated_ids_carry_their_time(run_id: Seq<char>)
    requires
        generated_id(run_id),
    ensures
        uuid_parsed(run_id) matches Ok(id) && uuid_seconds(id) is Some,
{
}

} // verus!
