//! HTTP dates, modelled as whole seconds since the Unix epoch.
//!
//! Parsing and formatting are done by the `httpdate` crate through the
//! trusted wrappers below; everything this library proves about dates goes
//! through the two named results `http_date_value` and `http_date_format`.

use vstd::prelude::*;

verus! {

/// First second of the year 10000: `httpdate` refuses to format any
/// timestamp at or past it (and never parses one).
pub const HTTP_DATE_LIMIT: u64 = 253402300800;

/// The timestamp that `httpdate::parse_http_date` reads from a byte string,
/// if any. A function of the bytes alone.
pub uninterp spec fn http_date_value(s: Seq<u8>) -> Option<u64>;

/// The IMF-fixdate rendering of a timestamp, e.g.
/// `Fri, 15 May 2015 15:34:21 GMT`. A function of the timestamp alone.
pub uninterp spec fn http_date_format(secs: u64) -> Seq<u8>;

/// Relies on `httpdate::parse_http_date`: a pure parser of the three HTTP
/// date formats. It accepts only dates in 1970..=9999, so the seconds value
/// always fits and `duration_since(UNIX_EPOCH)` cannot fail. A value that is
/// not ASCII, or no valid date, parses to nothing.
#[verifier::external_body]
pub fn parse_http_date_bytes(v: &[u8]) -> (r: Option<u64>)
    ensures
        r == http_date_value(v@),
{
    let s = match std::str::from_utf8(v) {
        Ok(s) => s,
        Err(_) => return None,
    };
    match httpdate::parse_http_date(s) {
        Ok(t) => match t.duration_since(std::time::UNIX_EPOCH) {
            Ok(d) => Some(d.as_secs()),
            Err(_) => None,
        },
        Err(_) => None,
    }
}

/// Relies on `httpdate::fmt_http_date`: a pure formatter to IMF-fixdate.
/// It panics at or past the year 10000, hence the bound.
#[verifier::external_body]
pub fn fmt_http_date_bytes(secs: u64) -> (r: Vec<u8>)
    requires
        secs < HTTP_DATE_LIMIT,
    ensures
        r@ == http_date_format(secs),
{
    httpdate::fmt_http_date(
        std::time::UNIX_EPOCH + std::time::Duration::from_secs(secs),
    ).into_bytes()
}

/// Relies on `std::time::SystemTime::now`; nothing is promised of the
/// clock's value.
#[verifier::external_body]
pub fn now_unix_secs() -> u64 {
    match std::time::SystemTime::now().duration_since(std::time::UNIX_EPOCH) {
        Ok(d) => d.as_secs(),
        Err(_) => 0,
    }
}

} // verus!
