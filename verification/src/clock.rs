//! Timestamp handling over chrono: which epoch-second values chrono can
//! represent, the fixed UTC rendering the calendar format uses, and the
//! current time.

use vstd::prelude::*;

verus! {

/// Whether chrono can represent `secs` seconds since the epoch: the fixed
/// range on which `chrono::DateTime::from_timestamp(secs, 0)` is `Some`.
pub uninterp spec fn ts_in_range(secs: int) -> bool;

/// The rendering of an in-range epoch-second value as UTC in the fixed
/// pattern `YYYYMMDDTHHMMSSZ`.
pub uninterp spec fn fmt_utc(secs: int) -> Seq<char>;

/// The timestamp rendering the encoder writes: the fixed UTC pattern, or
/// nothing when chrono cannot represent the value.
pub open spec fn fmt_ts(secs: int) -> Seq<char> {
    if ts_in_range(secs) {
        fmt_utc(secs)
    } else {
        Seq::empty()
    }
}

/// Relies on chrono's `DateTime::from_timestamp`: with zero nanoseconds it
/// returns `Some` exactly when the seconds value is in chrono's representable
/// range, a fixed range of the argument alone.
#[verifier::external_body]
pub(crate) fn timestamp_parses(secs: i64) -> (r: bool)
    ensures
        r == ts_in_range(secs as int),
{
    chrono::DateTime::from_timestamp(secs, 0).is_some()
}

/// Relies on chrono's `DateTime::from_timestamp` and on formatting the
/// resulting UTC datetime with the fixed pattern `%Y%m%dT%H%M%SZ`; both
/// depend on the seconds value alone.
#[verifier::external_body]
pub fn format_datetime(secs: i64) -> (r: String)
    ensures
        ts_in_range(secs as int) ==> r@ == fmt_utc(secs as int),
        !ts_in_range(secs as int) ==> r@ == Seq::<char>::empty(),
{
    match chrono::DateTime::from_timestamp(secs, 0) {
        Some(dt) => dt.format("%Y%m%dT%H%M%SZ").to_string(),
        None => String::new(),
    }
}

/// Relies on chrono's `Utc::now`, read as whole seconds since the epoch; the
/// value depends on the wall clock, so nothing is promised of it.
#[verifier::external_body]
pub(crate) fn now_secs() -> (r: i64) {
    chrono::Utc::now().timestamp()
}

/// The value a feed's unsigned epoch field denotes once it is reinterpreted
/// as a signed count of seconds, as a two's-complement cast does.
pub open spec fn wrap_i64(x: u64) -> int {
    if x <= i64::MAX as u64 {
        x as int
    } else {
        x - 0x1_0000_0000_0000_0000
    }
}

/// Reinterprets an unsigned epoch field as a signed count of seconds.
pub fn u64_to_i64(x: u64) -> (r: i64)
    ensures
        r as int == wrap_i64(x),
{
    if x <= 0x7fff_ffff_ffff_ffffu64 {
        x as i64
    } else {
        i64::MIN + ((x - 0x8000_0000_0000_0000u64) as i64)
    }
}

/// Reads an unsigned epoch field as chrono would: reinterpreted as signed
/// seconds, and accepted only when chrono can represent the value.
pub open spec fn parse_ts(x: u64) -> Option<int> {
    if ts_in_range(wrap_i64(x)) {
        Some(wrap_i64(x))
    } else {
        None
    }
}

/// Parses an unsigned epoch field into a representable signed timestamp.
pub fn parse_timestamp(x: u64) -> (r: Option<i64>)
    ensures
        r is Some <==> parse_ts(x) is Some,
        r matches Some(v) ==> parse_ts(x) == Some(v as int),
{
    let s = u64_to_i64(x);
    if timestamp_parses(s) {
        Some(s)
    } else {
        None
    }
}

} // verus!
