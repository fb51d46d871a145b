use vstd::prelude::*;

verus! {

/// Relies on chrono's `From<SystemTime>` conversion (total, also for a
/// clock set before the Unix epoch) and `DateTime::timestamp`, applied
/// to `std::time::SystemTime::now()`: the machine's clock as whole
/// seconds since the Unix epoch, negative before it. The clock may move
/// arbitrarily between calls, so nothing is assumed of the value.
#[verifier::external_body]
fn now_timestamp() -> i64 {
    chrono::DateTime::<chrono::Utc>::from(std::time::SystemTime::now()).timestamp()
}

/// The current clock reading in whole seconds since the Unix epoch,
/// clamped below at the epoch itself.
pub fn now_seconds() -> u64 {
    let t = now_timestamp();
    if t < 0 {
        0
    } else {
        t as u64
    }
}

/// Relies on `chrono::DateTime::from_timestamp`, `with_timezone` and
/// `format`: renders the moment `epoch_seconds` after the Unix epoch as
/// `day/month/year hour:minute:second` in the machine's local time zone,
/// or an empty string for a moment outside chrono's range. The text
/// depends on the local time zone, so nothing is assumed of it.
#[verifier::external_body]
pub(crate) fn format_local_datetime(epoch_seconds: u64) -> String {
    let secs = match i64::try_from(epoch_seconds) {
        Ok(s) => s,
        Err(_) => return String::new(),
    };
    match chrono::DateTime::<chrono::Utc>::from_timestamp(secs, 0) {
        Some(dt) => dt.with_timezone(&chrono::Local).format("%d/%m/%Y %T").to_string(),
        None => String::new(),
    }
}

} // verus!
