//! Instants as nanoseconds since the Unix epoch, compared by whole second,
//! and their ISO 8601 text.
//!
//! Calendar arithmetic, formatting and parsing are chrono's; this module
//! splits and joins timestamps and decides which reading of a text wins.
use chrono::{DateTime, NaiveDate, NaiveDateTime, TimeZone, Utc};
use vstd::prelude::*;

verus! {

/// Nanoseconds in a second.
pub const NANOS_PER_SEC: i128 = 1000000000;

/// The earliest second chrono can represent: January 1 of year -262143, UTC.
pub const MIN_TIMESTAMP_SECS: i64 = -8334601228800;

/// The latest second chrono can represent: December 31 of year 262142,
/// 23:59:59 UTC.
pub const MAX_TIMESTAMP_SECS: i64 = 8210266876799;

/// What chrono's `to_rfc3339` gives for the UTC instant `secs` seconds and
/// `nsecs` nanoseconds after the epoch.
pub uninterp spec fn rfc3339_of(secs: i64, nsecs: u32) -> Seq<char>;

/// The UTC instant, as seconds and subsecond nanoseconds, that chrono's
/// `DateTime::parse_from_rfc3339` reads from `s`; `None` when it refuses `s`.
pub uninterp spec fn parsed_rfc3339(s: Seq<char>) -> Option<(i64, u32)>;

/// The instant that chrono's `NaiveDateTime::parse_from_str` reads from `s`
/// with the format `fmt`, taken as UTC; `None` when it refuses `s`.
pub uninterp spec fn parsed_naive(s: Seq<char>, fmt: Seq<char>) -> Option<(i64, u32)>;

/// The instant, UTC, at `hour:min:sec` of the day that chrono's
/// `NaiveDate::parse_from_str` reads from `s` with the format `fmt`; `None`
/// when it refuses `s` or the time of day does not exist.
pub uninterp spec fn parsed_date_at(s: Seq<char>, fmt: Seq<char>, hour: u32, min: u32, sec: u32) -> Option<(i64, u32)>;

/// `Utc.timestamp_opt(secs, nsecs).single()`, then `to_rfc3339` on the
/// instant. chrono's source makes the instant exist exactly when `secs`
/// lies in its range (nanoseconds below one second are always accepted);
/// the text is named, not stated.
#[verifier::external_body]
fn utc_rfc3339(secs: i64, nsecs: u32) -> (r: Option<String>)
    requires
        nsecs < 1000000000,
    ensures
        r is Some <==> MIN_TIMESTAMP_SECS <= secs <= MAX_TIMESTAMP_SECS,
        r matches Some(s) ==> s@ == rfc3339_of(secs, nsecs),
{
    match Utc.timestamp_opt(secs, nsecs).single() {
        Some(dt) => Some(dt.to_rfc3339()),
        None => None,
    }
}

/// `DateTime::parse_from_rfc3339(value)`, converted to UTC and split into
/// `timestamp()` and `timestamp_subsec_nanos()`.
#[verifier::external_body]
fn rfc3339_timestamp(value: &str) -> (r: Option<(i64, u32)>)
    ensures
        r == parsed_rfc3339(value@),
{
    match DateTime::parse_from_rfc3339(value) {
        Ok(dt) => {
            let u = dt.with_timezone(&Utc);
            Some((u.timestamp(), u.timestamp_subsec_nanos()))
        },
        Err(_) => None,
    }
}

/// `NaiveDateTime::parse_from_str(value, fmt)`, taken as UTC by
/// `Utc.from_utc_datetime` and split into `timestamp()` and
/// `timestamp_subsec_nanos()`.
#[verifier::external_body]
fn naive_timestamp(value: &str, fmt: &str) -> (r: Option<(i64, u32)>)
    ensures
        r == parsed_naive(value@, fmt@),
{
    match NaiveDateTime::parse_from_str(value, fmt) {
        Ok(naive) => {
            let u = Utc.from_utc_datetime(&naive);
            Some((u.timestamp(), u.timestamp_subsec_nanos()))
        },
        Err(_) => None,
    }
}

/// `NaiveDate::parse_from_str(value, fmt)` at `and_hms_opt(hour, min, sec)`,
/// taken as UTC and split into `timestamp()` and `timestamp_subsec_nanos()`.
#[verifier::external_body]
fn date_timestamp(value: &str, fmt: &str, hour: u32, min: u32, sec: u32) -> (r: Option<(i64, u32)>)
    ensures
        r == parsed_date_at(value@, fmt@, hour, min, sec),
{
    match NaiveDate::parse_from_str(value, fmt) {
        Ok(date) => match date.and_hms_opt(hour, min, sec) {
            Some(naive) => {
                let u = Utc.from_utc_datetime(&naive);
                Some((u.timestamp(), u.timestamp_subsec_nanos()))
            },
            None => None,
        },
        Err(_) => None,
    }
}

/// An instant, in nanoseconds since the Unix epoch. Two instants are equal
/// when they fall in the same second.
#[derive(Debug, Clone, Copy, Default)]
pub struct Time(pub i128);

/// The whole seconds of `nanos`, rounded down.
pub open spec fn secs_of(nanos: i128) -> int {
    nanos as int / NANOS_PER_SEC as int
}

/// The nanoseconds past the whole second of `nanos`.
pub open spec fn subsec_of(nanos: i128) -> int {
    nanos as int % NANOS_PER_SEC as int
}

/// The instant `secs` seconds and `nsecs` nanoseconds after the epoch.
pub open spec fn nanos_of(secs: i64, nsecs: u32) -> int {
    secs as int * NANOS_PER_SEC as int + nsecs as int
}

fn div_euclid_secs(nanos: i128) -> (r: i128)
    ensures
        r == secs_of(nanos),
{
    if nanos >= 0 {
        nanos / NANOS_PER_SEC
    } else {
        let m: i128 = -(nanos + 1);
        let q: i128 = m / NANOS_PER_SEC;
        proof {
            let x = nanos as int;
            let n = NANOS_PER_SEC as int;
            assert(q == (-x - 1) / n);
            assert(-q - 1 == x / n) by (nonlinear_arith)
                requires
                    q == (-x - 1) / n,
                    x < 0,
                    n == 1000000000,
            ;
        }
        -q - 1
    }
}

fn rem_euclid_nanos(nanos: i128) -> (r: i128)
    ensures
        r == subsec_of(nanos),
        0 <= r < NANOS_PER_SEC,
{
    if nanos >= 0 {
        nanos % NANOS_PER_SEC
    } else {
        let m: i128 = -(nanos + 1);
        let k: i128 = m % NANOS_PER_SEC;
        proof {
            let x = nanos as int;
            let n = NANOS_PER_SEC as int;
            assert(k == (-x - 1) % n);
            assert(n - 1 - k == x % n && 0 <= k < n) by (nonlinear_arith)
                requires
                    k == (-x - 1) % n,
                    x < 0,
                    n == 1000000000,
            ;
        }
        NANOS_PER_SEC - 1 - k
    }
}

impl PartialEq for Time {
    fn eq(&self, other: &Self) -> (r: bool) {
        div_euclid_secs(self.0) == div_euclid_secs(other.0)
    }
}

impl vstd::std_specs::cmp::PartialEqSpecImpl for Time {
    open spec fn obeys_eq_spec() -> bool {
        true
    }

    open spec fn eq_spec(&self, other: &Self) -> bool {
        secs_of(self.0) == secs_of(other.0)
    }
}

impl Eq for Time {}

/// Why an instant has no calendar reading.
pub open spec fn spec_timestamp_error(nanos: i128) -> Option<&'static str> {
    let secs = secs_of(nanos) as i64;
    if nanos >= 0 && secs < 0 {
        Some("Timestamp overflowed positive i64 seconds")
    } else if nanos < 0 && secs > 0 {
        Some("Timestamp overflowed negative i64 seconds")
    } else if !(MIN_TIMESTAMP_SECS <= secs <= MAX_TIMESTAMP_SECS) {
        Some("Invalid timestamp or out of range for Chrono")
    } else {
        None
    }
}

impl Time {
    /// The instant `secs` seconds and `nsecs` nanoseconds after the epoch.
    pub fn from_timestamp(secs: i64, nsecs: u32) -> (r: Time)
        ensures
            r.0 == nanos_of(secs, nsecs),
    {
        let s: i128 = secs as i128;
        proof {
            assert(-0x8000_0000_0000_0000_0000_0000 <= s * 1000000000 <= 0x7fff_ffff_ffff_ffff_ffff_ffff) by (
            nonlinear_arith)
                requires
                    -0x8000_0000_0000_0000 <= s <= 0x7fff_ffff_ffff_ffff,
            ;
        }
        let whole: i128 = s * NANOS_PER_SEC;
        Time(whole + nsecs as i128)
    }

    /// The seconds, cut to 64 bits as a cast cuts them, and the subsecond
    /// nanoseconds.
    pub fn split(&self) -> (r: (i64, u32))
        ensures
            r.0 == secs_of(self.0) as i64,
            r.1 == subsec_of(self.0),
    {
        let secs = div_euclid_secs(self.0);
        let sub = rem_euclid_nanos(self.0);
        (secs as i64, sub as u32)
    }

    /// The instant's ISO 8601 (RFC 3339) text, or why it has none: the
    /// seconds overflow 64 bits, or lie outside chrono's range.
    pub fn try_to_iso8601(&self) -> (r: Result<String, &'static str>)
        ensures
            match spec_timestamp_error(self.0) {
                Some(e) => r == Err::<String, &'static str>(e),
                None => r matches Ok(s) && s@ == rfc3339_of(
                    secs_of(self.0) as i64,
                    subsec_of(self.0) as u32,
                ),
            },
    {
        let nanos = self.0;
        let (secs, nsecs) = self.split();
        if nanos >= 0 && secs < 0 {
            return Err("Timestamp overflowed positive i64 seconds");
        }
        if nanos < 0 && secs > 0 {
            return Err("Timestamp overflowed negative i64 seconds");
        }
        match utc_rfc3339(secs, nsecs) {
            Some(s) => Ok(s),
            None => Err("Invalid timestamp or out of range for Chrono"),
        }
    }

    /// The instant's ISO 8601 (RFC 3339) text.
    pub fn to_iso8601(&self) -> (r: String)
        requires
            spec_timestamp_error(self.0) is None,
        ensures
            r@ == rfc3339_of(secs_of(self.0) as i64, subsec_of(self.0) as u32),
    {
        match self.try_to_iso8601() {
            Ok(s) => s,
            Err(_) => {
                proof {
                    assert(false);
                }
                String::new()
            },
        }
    }
}

/// Joining seconds and nanoseconds into an instant and splitting it again
/// gives them back; the instant has a text exactly when its seconds lie in
/// chrono's range, and the text is that of those seconds and nanoseconds.
pub proof fn lemma_timestamp_roundtrip(secs: i64, nsecs: u32)
    requires
        nsecs < NANOS_PER_SEC,
    ensures
        secs_of(nanos_of(secs, nsecs) as i128) == secs,
        subsec_of(nanos_of(secs, nsecs) as i128) == nsecs,
        spec_timestamp_error(nanos_of(secs, nsecs) as i128) is None <==> MIN_TIMESTAMP_SECS <= secs
            <= MAX_TIMESTAMP_SECS,
{
    let n = NANOS_PER_SEC as int;
    let x = nanos_of(secs, nsecs);
    assert(-0x8000_0000_0000_0000_0000_0000_0000_0000 < x < 0x7fff_ffff_ffff_ffff_ffff_ffff_ffff_ffff)
        by (nonlinear_arith)
        requires
            x == secs * n + nsecs,
            n == 1000000000,
            -0x8000_0000_0000_0000 <= secs <= 0x7fff_ffff_ffff_ffff,
            0 <= nsecs < n,
    ;
    vstd::arithmetic::div_mod::lemma_fundamental_div_mod_converse(x, n, secs as int, nsecs as int);
    assert((x as i128) as int == x);
    assert(x >= 0 ==> secs >= 0) by (nonlinear_arith)
        requires
            x == secs * n + nsecs,
            n == 1000000000,
            0 <= nsecs < n,
    ;
    assert(x < 0 ==> secs < 0) by (nonlinear_arith)
        requires
            x == secs * n + nsecs,
            n == 1000000000,
            0 <= nsecs < n,
    ;
}

// ---------------------------------------------------------------------------
// Reading a text
// ---------------------------------------------------------------------------

/// The instant of a parsed timestamp.
pub open spec fn time_of(p: Option<(i64, u32)>) -> Option<int> {
    match p {
        Some((s, n)) => Some(nanos_of(s, n)),
        None => None,
    }
}

/// The first reading of `v` that succeeds, most specific first: RFC 3339;
/// a date with a time, with a `T` or a space between them, down to
/// fractional seconds, whole seconds or minutes; a date and an hour (read
/// with `:00` appended); a date alone, at midnight.
pub open spec fn spec_parse_time(v: Seq<char>) -> Option<int> {
    let hour = v + ":00"@;
    if parsed_rfc3339(v) is Some {
        time_of(parsed_rfc3339(v))
    } else if parsed_naive(v, "%Y-%m-%dT%H:%M:%S%.f"@) is Some {
        time_of(parsed_naive(v, "%Y-%m-%dT%H:%M:%S%.f"@))
    } else if parsed_naive(v, "%Y-%m-%d %H:%M:%S%.f"@) is Some {
        time_of(parsed_naive(v, "%Y-%m-%d %H:%M:%S%.f"@))
    } else if parsed_naive(v, "%Y-%m-%dT%H:%M:%S"@) is Some {
        time_of(parsed_naive(v, "%Y-%m-%dT%H:%M:%S"@))
    } else if parsed_naive(v, "%Y-%m-%d %H:%M:%S"@) is Some {
        time_of(parsed_naive(v, "%Y-%m-%d %H:%M:%S"@))
    } else if parsed_naive(v, "%Y-%m-%dT%H:%M"@) is Some {
        time_of(parsed_naive(v, "%Y-%m-%dT%H:%M"@))
    } else if parsed_naive(v, "%Y-%m-%d %H:%M"@) is Some {
        time_of(parsed_naive(v, "%Y-%m-%d %H:%M"@))
    } else if parsed_naive(hour, "%Y-%m-%dT%H:%M"@) is Some {
        time_of(parsed_naive(hour, "%Y-%m-%dT%H:%M"@))
    } else if parsed_naive(hour, "%Y-%m-%d %H:%M"@) is Some {
        time_of(parsed_naive(hour, "%Y-%m-%d %H:%M"@))
    } else {
        time_of(parsed_date_at(v, "%Y-%m-%d"@, 0, 0, 0))
    }
}

fn time_from(p: (i64, u32)) -> (r: Time)
    ensures
        r.0 == nanos_of(p.0, p.1),
{
    Time::from_timestamp(p.0, p.1)
}

impl Time {
    /// Reads an ISO 8601 text, full or partial; times without a zone are
    /// UTC. `None` when no reading succeeds.
    pub fn parse_str(value: &str) -> (r: Option<Time>)
        ensures
            match spec_parse_time(value@) {
                Some(n) => r matches Some(t) && t.0 == n,
                None => r is None,
            },
    {
        if let Some(p) = rfc3339_timestamp(value) {
            return Some(time_from(p));
        }
        if let Some(p) = naive_timestamp(value, "%Y-%m-%dT%H:%M:%S%.f") {
            return Some(time_from(p));
        }
        if let Some(p) = naive_timestamp(value, "%Y-%m-%d %H:%M:%S%.f") {
            return Some(time_from(p));
        }
        if let Some(p) = naive_timestamp(value, "%Y-%m-%dT%H:%M:%S") {
            return Some(time_from(p));
        }
        if let Some(p) = naive_timestamp(value, "%Y-%m-%d %H:%M:%S") {
            return Some(time_from(p));
        }
        if let Some(p) = naive_timestamp(value, "%Y-%m-%dT%H:%M") {
            return Some(time_from(p));
        }
        if let Some(p) = naive_timestamp(value, "%Y-%m-%d %H:%M") {
            return Some(time_from(p));
        }
        let mut with_min = String::from_str(value);
        with_min.append(":00");
        if let Some(p) = naive_timestamp(with_min.as_str(), "%Y-%m-%dT%H:%M") {
            return Some(time_from(p));
        }
        if let Some(p) = naive_timestamp(with_min.as_str(), "%Y-%m-%d %H:%M") {
            return Some(time_from(p));
        }
        if let Some(p) = date_timestamp(value, "%Y-%m-%d", 0, 0, 0) {
            return Some(time_from(p));
        }
        None
    }
}

/// Whether chrono refuses `v` in every reading that carries seconds: as
/// RFC 3339 and as a date with a time to the second or finer, with either
/// separator.
pub open spec fn refused_with_seconds(v: Seq<char>) -> bool {
    &&& parsed_rfc3339(v) is None
    &&& parsed_naive(v, "%Y-%m-%dT%H:%M:%S%.f"@) is None
    &&& parsed_naive(v, "%Y-%m-%d %H:%M:%S%.f"@) is None
    &&& parsed_naive(v, "%Y-%m-%dT%H:%M:%S"@) is None
    &&& parsed_naive(v, "%Y-%m-%d %H:%M:%S"@) is None
}

/// Whether chrono refuses `v` in every reading of a date with a time, to
/// the minute or finer, with either separator, and as RFC 3339.
pub open spec fn refused_with_minutes(v: Seq<char>) -> bool {
    &&& refused_with_seconds(v)
    &&& parsed_naive(v, "%Y-%m-%dT%H:%M"@) is None
    &&& parsed_naive(v, "%Y-%m-%d %H:%M"@) is None
}

/// A date and a time of day to the minute read as the same instant whether
/// a space or a `T` stands between them: where chrono reads neither text
/// with seconds, refuses the spaced text with a `T`, and reads the spaced
/// text with a space as it reads the other with a `T`, both texts read as
/// that instant.
pub proof fn lemma_space_or_t_minutes(date: Seq<char>, time: Seq<char>)
    ensures
        ({
            let spaced = date + " "@ + time;
            let tee = date + "T"@ + time;
            (refused_with_seconds(spaced) && refused_with_seconds(tee) && parsed_naive(spaced, "%Y-%m-%dT%H:%M"@) is None
                && parsed_naive(spaced, "%Y-%m-%d %H:%M"@) is Some && parsed_naive(spaced, "%Y-%m-%d %H:%M"@)
                == parsed_naive(tee, "%Y-%m-%dT%H:%M"@)) ==> (spec_parse_time(spaced) == time_of(
                parsed_naive(spaced, "%Y-%m-%d %H:%M"@),
            ) && spec_parse_time(spaced) is Some && spec_parse_time(spaced) == spec_parse_time(tee))
        }),
{
}

/// A text that chrono reads with a space and minutes, and in no reading
/// tried before that one, reads as the instant that reading gives.
pub proof fn lemma_space_minutes_reading(v: Seq<char>)
    ensures
        (refused_with_seconds(v) && parsed_naive(v, "%Y-%m-%dT%H:%M"@) is None && parsed_naive(
            v,
            "%Y-%m-%d %H:%M"@,
        ) is Some) ==> spec_parse_time(v) == time_of(parsed_naive(v, "%Y-%m-%d %H:%M"@))
            && spec_parse_time(v) is Some,
{
}

/// The readings of a text are tried most specific first, and the first
/// that chrono accepts decides: RFC 3339; then a date with a time to the
/// fraction of a second, the second or the minute, each with a `T` before a
/// space; then a date and an hour, read with `:00` appended; then a date
/// alone, at midnight. A text no reading accepts is not an instant.
pub proof fn lemma_reading_order(v: Seq<char>)
    ensures
        parsed_rfc3339(v) is Some ==> spec_parse_time(v) == time_of(parsed_rfc3339(v)),
        (parsed_rfc3339(v) is None && parsed_naive(v, "%Y-%m-%dT%H:%M:%S%.f"@) is Some) ==> spec_parse_time(v)
            == time_of(parsed_naive(v, "%Y-%m-%dT%H:%M:%S%.f"@)),
        (parsed_rfc3339(v) is None && parsed_naive(v, "%Y-%m-%dT%H:%M:%S%.f"@) is None && parsed_naive(
            v,
            "%Y-%m-%d %H:%M:%S%.f"@,
        ) is Some) ==> spec_parse_time(v) == time_of(parsed_naive(v, "%Y-%m-%d %H:%M:%S%.f"@)),
        (parsed_rfc3339(v) is None && parsed_naive(v, "%Y-%m-%dT%H:%M:%S%.f"@) is None && parsed_naive(
            v,
            "%Y-%m-%d %H:%M:%S%.f"@,
        ) is None && parsed_naive(v, "%Y-%m-%dT%H:%M:%S"@) is Some) ==> spec_parse_time(v) == time_of(
            parsed_naive(v, "%Y-%m-%dT%H:%M:%S"@),
        ),
        (parsed_rfc3339(v) is None && parsed_naive(v, "%Y-%m-%dT%H:%M:%S%.f"@) is None && parsed_naive(
            v,
            "%Y-%m-%d %H:%M:%S%.f"@,
        ) is None && parsed_naive(v, "%Y-%m-%dT%H:%M:%S"@) is None && parsed_naive(v, "%Y-%m-%d %H:%M:%S"@) is Some)
            ==> spec_parse_time(v) == time_of(parsed_naive(v, "%Y-%m-%d %H:%M:%S"@)),
        (refused_with_seconds(v) && parsed_naive(v, "%Y-%m-%dT%H:%M"@) is Some) ==> spec_parse_time(v) == time_of(
            parsed_naive(v, "%Y-%m-%dT%H:%M"@),
        ),
        (refused_with_minutes(v) && parsed_naive(v + ":00"@, "%Y-%m-%dT%H:%M"@) is Some) ==> spec_parse_time(v)
            == time_of(parsed_naive(v + ":00"@, "%Y-%m-%dT%H:%M"@)),
        (refused_with_minutes(v) && parsed_naive(v + ":00"@, "%Y-%m-%dT%H:%M"@) is None && parsed_naive(
            v + ":00"@,
            "%Y-%m-%d %H:%M"@,
        ) is Some) ==> spec_parse_time(v) == time_of(parsed_naive(v + ":00"@, "%Y-%m-%d %H:%M"@)),
        (refused_with_minutes(v) && parsed_naive(v + ":00"@, "%Y-%m-%dT%H:%M"@) is None && parsed_naive(
            v + ":00"@,
            "%Y-%m-%d %H:%M"@,
        ) is None) ==> spec_parse_time(v) == time_of(parsed_date_at(v, "%Y-%m-%d"@, 0, 0, 0)),
{
}

} // verus!
