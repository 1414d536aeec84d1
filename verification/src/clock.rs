use vstd::prelude::*;

verus! {

/// A creation instant the store accepts: whole seconds since the Unix
/// epoch, non-negative and no later than the largest instant the calendar
/// library represents (23:59:59 on the last day of year 262142).
pub open spec fn valid_ts(ts: i64) -> bool {
    0 <= ts <= 8210266876799
}

/// The calendar-date text (year, month, day, ISO 8601) of an instant given
/// as whole seconds since the Unix epoch, UTC. The text is a function of
/// the instant alone; it is computed by an outside calendar library, so it
/// carries a name rather than a definition.
pub uninterp spec fn date_text_of(ts: int) -> Seq<char>;

/// Relies on `chrono::Utc::now`: the current instant as whole seconds
/// since the Unix epoch. `now` panics when the system clock stands before
/// the epoch, and cannot return an instant past the library's maximum, so
/// a returned value is always in the valid range.
#[verifier::external_body]
pub(crate) fn now_ts() -> (r: i64)
    ensures
        valid_ts(r),
{
    chrono::Utc::now().timestamp()
}

/// Relies on `chrono::DateTime::<Utc>::from_timestamp` and
/// `chrono::NaiveDate`'s ISO 8601 rendering: the calendar date of the
/// instant, a pure function of the timestamp. `from_timestamp` returns a
/// value for every timestamp in the valid range.
#[verifier::external_body]
pub(crate) fn date_text(ts: i64) -> (r: String)
    requires
        valid_ts(ts),
    ensures
        r@ == date_text_of(ts as int),
{
    match chrono::DateTime::<chrono::Utc>::from_timestamp(ts, 0) {
        Some(dt) => dt.date_naive().to_string(),
        None => String::new(),
    }
}

} // verus!
