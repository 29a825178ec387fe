//! Time: the clock (through chrono), instants read from RFC 3339 text, and the
//! whole minutes between two instants.
use vstd::prelude::*;

verus! {

/// The instant (seconds since the Unix epoch, and nanoseconds past that second) that
/// chrono's `DateTime::parse_from_rfc3339` reads from `ts`, `None` when it does not
/// parse.
pub uninterp spec fn rfc3339_instant(ts: Seq<char>) -> Option<(i64, u32)>;

/// chrono's `DateTime::parse_from_rfc3339`, the parsed time given as its
/// `timestamp()` and `timestamp_subsec_nanos()`. Claimed: the result is
/// `rfc3339_instant(ts)`, and the nanoseconds are under two billion (chrono's times
/// keep their fraction below that, a leap second included).
#[verifier::external_body]
pub(crate) fn parse_rfc3339_instant(ts: &str) -> (r: Option<(i64, u32)>)
    ensures
        r == rfc3339_instant(ts@),
        r matches Some((_, n)) ==> n < 2_000_000_000,
{
    chrono::DateTime::parse_from_rfc3339(ts).ok().map(|t| (t.timestamp(), t.timestamp_subsec_nanos()))
}

/// std's `SystemTime::now`, read as its `duration_since(UNIX_EPOCH)`: whole seconds
/// and nanoseconds since 1970. Claimed: `None` is returned when the clock reads before
/// 1970 (or past what an `i64` of seconds holds); otherwise the seconds are not negative
/// and the nanoseconds below a billion (a `Duration`'s fraction). The instant itself is
/// the clock's, so nothing more is stated.
#[verifier::external_body]
pub(crate) fn utc_now_instant() -> (r: Option<(i64, u32)>)
    ensures
        r matches Some((secs, nanos)) ==> secs >= 0 && nanos < 1_000_000_000,
{
    let d = std::time::SystemTime::now().duration_since(std::time::UNIX_EPOCH).ok()?;
    Some((i64::try_from(d.as_secs()).ok()?, d.subsec_nanos()))
}

/// chrono's `DateTime::from_timestamp` for the instant `secs`, `nanos` since 1970, shown
/// in the local time zone (`with_timezone(&Local)`) and formatted with `pattern` (one of
/// the patterns the console uses). Claimed: nothing of the text, which depends on the
/// machine's time zone; `None` when chrono cannot represent the instant.
#[verifier::external_body]
pub(crate) fn local_time_text(secs: i64, nanos: u32, pattern: &str) -> (r: Option<String>)
    requires
        pattern@ == "%H:%M"@ || pattern@ == "%Y-%m-%dT%H:%M:%S"@,
{
    chrono::DateTime::from_timestamp(secs, nanos).map(|t| t.with_timezone(&chrono::Local).format(pattern).to_string())
}

/// The local clock time now in `pattern`, or the empty text when the clock cannot be
/// read (it reads before 1970) or the time cannot be shown.
pub(crate) fn clock_text(pattern: &str) -> (r: String)
    requires
        pattern@ == "%H:%M"@ || pattern@ == "%Y-%m-%dT%H:%M:%S"@,
{
    match utc_now_instant() {
        Some((secs, nanos)) => match local_time_text(secs, nanos, pattern) {
            Some(t) => t,
            None => String::new(),
        },
        None => String::new(),
    }
}

/// The whole minutes from `then` to `now` (instants as seconds and nanoseconds),
/// rounded toward zero.
pub open spec fn elapsed_minutes(now: (i64, u32), then: (i64, u32)) -> int {
    let d: int = (now.0 - then.0) * 1_000_000_000 + now.1 - then.1;
    if d >= 0 {
        d / 60_000_000_000
    } else {
        -((-d) / 60_000_000_000)
    }
}

/// The whole minutes from `then` to `now`, rounded toward zero.
pub fn minutes_between(now: (i64, u32), then: (i64, u32)) -> (m: i64)
    requires
        now.1 < 2_000_000_000,
        then.1 < 2_000_000_000,
    ensures
        m as int == elapsed_minutes(now, then),
{
    let secs: i128 = now.0 as i128 - then.0 as i128;
    assert(-0x1_0000_0000_0000_0000 <= secs <= 0x1_0000_0000_0000_0000);
    assert(-0x1_0000_0000_0000_0000 * 1_000_000_000 <= secs * 1_000_000_000 <= 0x1_0000_0000_0000_0000 * 1_000_000_000)
        by (nonlinear_arith)
        requires
            -0x1_0000_0000_0000_0000 <= secs <= 0x1_0000_0000_0000_0000,
    ;
    let d: i128 = secs * 1_000_000_000 + now.1 as i128 - then.1 as i128;
    let a: i128 = if d >= 0 { d } else { -d };
    assert(0 <= a <= 0x1_0000_0000_0000_0000 * 1_000_000_000 + 2_000_000_000);
    let a_q: i128 = a / 60_000_000_000;
    assert(a_q <= 0x7fff_ffff_ffff_ffff) by (nonlinear_arith)
        requires
            0 <= a <= 0x1_0000_0000_0000_0000 * 1_000_000_000 + 2_000_000_000,
            a_q == a / 60_000_000_000,
    ;
    let q: i128 = if d >= 0 { a_q } else { -a_q };
    q as i64
}

} // verus!
