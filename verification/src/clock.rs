//! Wall-clock access and timestamp formatting. The clock itself is an
//! outside effect; the formatting of a given millisecond value is a
//! fixed function of that value.

use vstd::prelude::*;

verus! {

/// The text that the timestamp formatter yields for a millisecond
/// count since the Unix epoch (`%Y-%m-%d %H:%M:%S`, UTC).
pub uninterp spec fn date_string_of(ms: u64) -> Seq<char>;

/// Milliseconds a `u128` holds after clamping into `u64`.
pub open spec fn clamp_ms(ms: u128) -> u64 {
    if ms > u64::MAX {
        u64::MAX
    } else {
        ms as u64
    }
}

/// Relies on std's `SystemTime::now` and `duration_since`: milliseconds
/// since the Unix epoch. Nothing is promised of the clock's value; a
/// clock before the epoch reads as zero.
#[verifier::external_body]
fn read_clock_millis() -> (r: u128) {
    let start = std::time::SystemTime::now();
    match start.duration_since(std::time::UNIX_EPOCH) {
        Ok(since_epoch) => since_epoch.as_millis(),
        Err(_) => 0,
    }
}

/// The wall-clock time as milliseconds since the Unix epoch; its value
/// depends on the clock alone and nothing is promised of it.
pub fn current_time_epoch() -> (r: u128) {
    read_clock_millis()
}

/// Relies on chrono's `DateTime::<Utc>::from_timestamp_millis` and
/// `format("%Y-%m-%d %H:%M:%S")`: the text depends on the millisecond
/// value alone (UTC, fixed format); a value outside chrono's range
/// yields the empty text.
#[verifier::external_body]
pub fn format_epoch_millis(ms: u64) -> (r: String)
    ensures
        r@ == date_string_of(ms),
{
    match chrono::DateTime::<chrono::Utc>::from_timestamp_millis(ms as i64) {
        Some(dt) => dt.format("%Y-%m-%d %H:%M:%S").to_string(),
        None => String::new(),
    }
}

/// The current wall-clock time as formatted text.
pub fn current_time_date_string() -> (r: String)
    ensures
        exists|ms: u64| r@ == #[trigger] date_string_of(ms),
{
    let now = current_time_epoch();
    let ms: u64 = if now > u64::MAX as u128 {
        u64::MAX
    } else {
        now as u64
    };
    format_epoch_millis(ms)
}

} // verus!
