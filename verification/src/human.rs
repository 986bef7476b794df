//! Human-readable rendering of durations, timestamps, byte counts and named
//! metrics, with two decimal places throughout.
use vstd::prelude::*;
use crate::numfmt::{
    div_trunc, div_trunc_i64, push_fixed2, push_i128, spec_fixed2, spec_signed_digits,
};
use crate::strutil::{
    chars_to_string, ends_with_seq, ends_with_str, push_str_chars, str_to_chars,
};

verus! {

/// The rendering of `ms` milliseconds: the largest unit of days, hours,
/// minutes or seconds that the duration exceeds, with two decimal places, or
/// the raw millisecond count.
pub open spec fn spec_human_duration(ms: int) -> Seq<char> {
    if ms > 86400000 {
        spec_fixed2(ms, 86400000) + " days"@
    } else if ms > 3600000 {
        spec_fixed2(ms, 3600000) + " hours"@
    } else if ms > 60000 {
        spec_fixed2(ms, 60000) + " minutes"@
    } else if ms > 1000 {
        spec_fixed2(ms, 1000) + " seconds"@
    } else {
        spec_signed_digits(ms) + " milliseconds"@
    }
}

/// Renders a duration in milliseconds in the largest unit it exceeds.
pub fn human_duration(duration_millis: i64) -> (r: String)
    ensures
        r@ == spec_human_duration(duration_millis as int),
{
    let mut out: Vec<char> = Vec::new();
    if duration_millis > 86400000 {
        push_fixed2(&mut out, duration_millis as u128, 86400000);
        push_str_chars(&mut out, " days");
    } else if duration_millis > 3600000 {
        push_fixed2(&mut out, duration_millis as u128, 3600000);
        push_str_chars(&mut out, " hours");
    } else if duration_millis > 60000 {
        push_fixed2(&mut out, duration_millis as u128, 60000);
        push_str_chars(&mut out, " minutes");
    } else if duration_millis > 1000 {
        push_fixed2(&mut out, duration_millis as u128, 1000);
        push_str_chars(&mut out, " seconds");
    } else {
        push_i128(&mut out, duration_millis as i128);
        push_str_chars(&mut out, " milliseconds");
    }
    chars_to_string(&out)
}

/// The fixed rendering of the Unix timestamp `ts` in the pattern
/// `[year]-[month]-[day]T[hour]:[minute]:[second].[subsecond]Z`, or the
/// empty string for a timestamp out of the representable range.
pub uninterp spec fn iso_time_of(ts: i64) -> Seq<char>;

/// Relies on time's `OffsetDateTime::from_unix_timestamp` and
/// `OffsetDateTime::format` with the fixed pattern named by `iso_time_of`:
/// the rendering is a function of the timestamp alone, and a timestamp the
/// crate cannot represent gives the empty string.
#[verifier::external_body]
fn format_epoch(ts: i64) -> (r: String)
    ensures
        r@ == iso_time_of(ts),
{
    let format = match time::format_description::parse(
        "[year]-[month]-[day]T[hour]:[minute]:[second].[subsecond]Z",
    ) {
        Ok(f) => f,
        Err(_) => return String::new(),
    };
    match time::OffsetDateTime::from_unix_timestamp(ts) {
        Ok(t) => t.format(&format).unwrap_or_else(|_| String::new()),
        Err(_) => String::new(),
    }
}

/// The rendering of a timestamp given in milliseconds.
pub open spec fn spec_human_time(ts_milli: int) -> Seq<char> {
    iso_time_of(div_trunc(ts_milli, 1000) as i64)
}

/// Renders a millisecond Unix timestamp as a fixed-format date and time.
pub fn human_time(ts_milli: i64) -> (r: String)
    ensures
        r@ == spec_human_time(ts_milli as int),
{
    let ts = div_trunc_i64(ts_milli, 1000);
    format_epoch(ts)
}

/// The rendering of `b` bytes in the largest binary unit it exceeds, with
/// two decimal places.
pub open spec fn spec_human_bytes(b: int) -> Seq<char> {
    if b > 1099511627776 {
        spec_fixed2(b, 1099511627776) + " tb"@
    } else if b > 1073741824 {
        spec_fixed2(b, 1073741824) + " gb"@
    } else if b > 1048576 {
        spec_fixed2(b, 1048576) + " mb"@
    } else if b > 1024 {
        spec_fixed2(b, 1024) + " kb"@
    } else {
        spec_signed_digits(b) + " bytes"@
    }
}

/// Renders a byte count in binary units (1 kb = 1024 bytes).
pub fn human_bytes(bytes: i64) -> (r: String)
    ensures
        r@ == spec_human_bytes(bytes as int),
{
    human_bytes_i128(bytes as i128)
}

/// Renders a byte count in binary units (1 kb = 1024 bytes).
pub fn human_bytes_i128(bytes: i128) -> (r: String)
    ensures
        r@ == spec_human_bytes(bytes as int),
{
    let mut out: Vec<char> = Vec::new();
    if bytes > 1099511627776 {
        push_fixed2(&mut out, bytes as u128, 1099511627776);
        push_str_chars(&mut out, " tb");
    } else if bytes > 1073741824 {
        push_fixed2(&mut out, bytes as u128, 1073741824);
        push_str_chars(&mut out, " gb");
    } else if bytes > 1048576 {
        push_fixed2(&mut out, bytes as u128, 1048576);
        push_str_chars(&mut out, " mb");
    } else if bytes > 1024 {
        push_fixed2(&mut out, bytes as u128, 1024);
        push_str_chars(&mut out, " kb");
    } else {
        push_i128(&mut out, bytes);
        push_str_chars(&mut out, " bytes");
    }
    chars_to_string(&out)
}

/// The rendering of `b` bytes in the largest decimal unit it exceeds, with
/// two decimal places.
pub open spec fn spec_human_bytes_base_1k(b: int) -> Seq<char> {
    if b > 1000000000000 {
        spec_fixed2(b, 1000000000000) + " tb"@
    } else if b > 1000000000 {
        spec_fixed2(b, 1000000000) + " gb"@
    } else if b > 1000000 {
        spec_fixed2(b, 1000000) + " mb"@
    } else if b > 1000 {
        spec_fixed2(b, 1000) + " kb"@
    } else {
        spec_signed_digits(b) + " bytes"@
    }
}

/// Renders a byte count in decimal units (1 kb = 1000 bytes).
pub fn human_bytes_base_1k(bytes: i64) -> (r: String)
    ensures
        r@ == spec_human_bytes_base_1k(bytes as int),
{
    let mut out: Vec<char> = Vec::new();
    if bytes > 1000000000000 {
        push_fixed2(&mut out, bytes as u128, 1000000000000);
        push_str_chars(&mut out, " tb");
    } else if bytes > 1000000000 {
        push_fixed2(&mut out, bytes as u128, 1000000000);
        push_str_chars(&mut out, " gb");
    } else if bytes > 1000000 {
        push_fixed2(&mut out, bytes as u128, 1000000);
        push_str_chars(&mut out, " mb");
    } else if bytes > 1000 {
        push_fixed2(&mut out, bytes as u128, 1000);
        push_str_chars(&mut out, " kb");
    } else {
        push_i128(&mut out, bytes as i128);
        push_str_chars(&mut out, " bytes");
    }
    chars_to_string(&out)
}

/// The rendering of the metric `name`: byte counts for `BYTES_READ` metrics,
/// durations for nanosecond metrics, the empty string otherwise.
pub open spec fn spec_human_metric(name: Seq<char>, value: int) -> Seq<char> {
    if ends_with_seq(name, "BYTES_READ"@) {
        spec_human_bytes(value)
    } else if ends_with_seq(name, "_NS"@) {
        spec_human_duration(div_trunc(value, 1000000))
    } else {
        Seq::empty()
    }
}

/// Renders a metric's value according to the unit its name implies.
pub fn human_metric(metric_name: String, value: i64) -> (r: String)
    ensures
        r@ == spec_human_metric(metric_name@, value as int),
{
    let name = str_to_chars(metric_name.as_str());
    if ends_with_str(&name, "BYTES_READ") {
        human_bytes(value)
    } else if ends_with_str(&name, "_NS") {
        human_duration(div_trunc_i64(value, 1000000))
    } else {
        let r = String::new();
        assert(r@ =~= Seq::<char>::empty());
        r
    }
}

} // verus!
