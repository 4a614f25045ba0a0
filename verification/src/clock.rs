//! Trusted clock reads.
//!
//! The library never promises anything about what a clock returns; every
//! function that depends on a time value states what holds for any value
//! the clock may hand back.

use vstd::prelude::*;

verus! {

/// Relies on `std::time::SystemTime::now`: the current wall-clock time,
/// converted to nanoseconds since the Unix epoch (zero if the clock sits
/// before the epoch).  Nothing is promised of the value.
#[verifier::external_body]
pub fn now_unix_ns() -> u64 {
    match std::time::SystemTime::now().duration_since(std::time::UNIX_EPOCH) {
        Ok(d) => {
            let n = d.as_nanos();
            if n > u64::MAX as u128 {
                u64::MAX
            } else {
                n as u64
            }
        },
        Err(_) => 0,
    }
}

/// Relies on `chrono::DateTime::from_timestamp` and the local-timezone
/// conversion: the current wall-clock time rendered as local-time text.
/// The timestamp is read and range-checked here first, so a clock sitting
/// before the Unix epoch or past the representable range yields empty
/// text instead of a panic.  Nothing is promised of the value.
#[verifier::external_body]
pub fn local_now_string() -> String {
    let since_epoch = match std::time::SystemTime::now().duration_since(std::time::UNIX_EPOCH) {
        Ok(d) => d,
        Err(_) => return String::new(),
    };
    if since_epoch.as_secs() > i64::MAX as u64 {
        return String::new();
    }
    match chrono::DateTime::from_timestamp(
        since_epoch.as_secs() as i64,
        since_epoch.subsec_nanos(),
    ) {
        Some(utc) => utc.with_timezone(&chrono::Local).to_string(),
        None => String::new(),
    }
}

} // verus!
