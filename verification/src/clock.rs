//! Times, and times as text.
use vstd::prelude::*;
use crate::text;

verus! {

/// The instant that a text in RFC 3339 names, in seconds and nanoseconds since the epoch; nothing
/// when the text is none. From 1,000,000,000 nanoseconds on the instant lies in a leap second.
pub uninterp spec fn instant_of(s: Seq<char>) -> Option<(i64, u32)>;

/// `DateTime::parse_from_rfc3339` of chrono, the instant given by its `timestamp` and
/// `timestamp_subsec_nanos`: the result depends on the text alone.
#[verifier::external_body]
fn parse_rfc3339(s: &str) -> (r: Option<(i64, u32)>)
    ensures
        r == instant_of(s@),
{
    chrono::DateTime::parse_from_rfc3339(s).ok().map(
        |t| (t.timestamp(), t.timestamp_subsec_nanos()),
    )
}

pub const NANOS_PER_SEC: i128 = 1_000_000_000;

/// The leap second that lies between two instants and that their seconds leave out: 1 when the
/// first one lies in it and the second one later in the day, -1 the other way round, else 0.
pub open spec fn leap_second(from: (i64, u32), to: (i64, u32)) -> int {
    let a = from.0 as int % 86_400;
    let b = to.0 as int % 86_400;
    if b > a && from.1 >= NANOS_PER_SEC {
        1
    } else if b < a && to.1 >= NANOS_PER_SEC {
        -1
    } else {
        0
    }
}

/// The nanoseconds from one instant to another, negative when the first one is the later one.
pub open spec fn nanos_between(from: (i64, u32), to: (i64, u32)) -> int {
    (to.0 - from.0 + leap_second(from, to)) * NANOS_PER_SEC + (to.1 - from.1)
}

/// The nanoseconds from an instant, written in RFC 3339, to another, given in seconds and
/// nanoseconds since the epoch; nothing when the text is no instant.
pub open spec fn time_between(from: Seq<char>, secs: i64, nanos: u32) -> Option<int> {
    match instant_of(from) {
        Some(start) => Some(nanos_between(start, (secs, nanos))),
        None => None,
    }
}

/// The second of the day, of a number of seconds since the epoch.
fn second_of_day(secs: i64) -> (r: i64)
    ensures
        r == secs as int % 86_400,
{
    if secs >= 0 {
        secs % 86_400
    } else {
        86_399 - (-(secs + 1)) % 86_400
    }
}

/// The nanoseconds from one instant to another, negative when the first one is the later one.
pub fn nanos_from(from: (i64, u32), to: (i64, u32)) -> (r: i128)
    ensures
        r == nanos_between(from, to),
{
    let a = second_of_day(from.0);
    let b = second_of_day(to.0);
    let leap: i128 = if b > a && from.1 as i128 >= NANOS_PER_SEC {
        1
    } else if b < a && to.1 as i128 >= NANOS_PER_SEC {
        -1
    } else {
        0
    };
    (to.0 as i128 - from.0 as i128 + leap) * NANOS_PER_SEC + (to.1 as i128 - from.1 as i128)
}

/// The nanoseconds from an instant, written in RFC 3339, to another, given in seconds and
/// nanoseconds since the epoch; nothing when the text is no instant.
pub fn time_since(from: &str, secs: i64, nanos: u32) -> (r: Option<i128>)
    ensures
        match r {
            Some(d) => time_between(from@, secs, nanos) == Some(d as int),
            None => time_between(from@, secs, nanos) is None,
        },
{
    match parse_rfc3339(from) {
        Some(start) => Some(nanos_from(start, (secs, nanos))),
        None => None,
    }
}

/// The whole seconds of a number of nanoseconds, rounded towards zero.
pub open spec fn whole_secs(nanos: int) -> int {
    if nanos >= 0 {
        nanos / NANOS_PER_SEC as int
    } else {
        -((-nanos) / NANOS_PER_SEC as int)
    }
}

/// The whole seconds of a number of nanoseconds, rounded towards zero.
pub fn whole_secs_of(nanos: i128) -> (r: i128)
    requires
        nanos > i128::MIN,
    ensures
        r == whole_secs(nanos as int),
{
    if nanos >= 0 {
        nanos / NANOS_PER_SEC
    } else {
        -((-nanos) / NANOS_PER_SEC)
    }
}

/// `time::OffsetDateTime::now_utc`: the current time in nanoseconds since the epoch. Nothing is
/// claimed of which time it is.
#[verifier::external_body]
pub(crate) fn now_nanos() -> (r: i128) {
    time::OffsetDateTime::now_utc().unix_timestamp_nanos()
}

/// The RFC 3339 text of an instant given in seconds and nanoseconds since the epoch.
pub uninterp spec fn rfc3339_text(secs: i64, nanos: u32) -> Option<Seq<char>>;

/// `DateTime::to_rfc3339` of chrono, on the instant that `DateTime::from_timestamp` makes: the
/// result depends on the arguments alone.
#[verifier::external_body]
pub(crate) fn to_rfc3339(secs: i64, nanos: u32) -> (r: Option<String>)
    ensures
        text::opt_text(r) == rfc3339_text(secs, nanos),
{
    chrono::DateTime::from_timestamp(secs, nanos).map(|t| t.to_rfc3339())
}

/// Between two times on the same second only the parts of it count; a whole second later there is
/// a second more, where neither is a leap second. Whole seconds drop the rest, on either side of
/// nothing.
pub proof fn law_time_is_counted_in_nanoseconds(
    from: (i64, u32),
    to: (i64, u32),
    r: i128,
    s: i128,
    whole: i128,
)
    requires
        call_ensures(nanos_from, (from, to), r),
        call_ensures(nanos_from, (to, from), s),
        call_ensures(whole_secs_of, (r,), whole),
        from.1 < 1_000_000_000,
        to.1 < 1_000_000_000,
    ensures
        r == (to.0 - from.0) * 1_000_000_000 + (to.1 - from.1),
        s == -r,
        r >= 0 ==> whole * 1_000_000_000 <= r < (whole + 1) * 1_000_000_000,
        r < 0 ==> (whole - 1) * 1_000_000_000 < r <= whole * 1_000_000_000,
{
}

} // verus!
