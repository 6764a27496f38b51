use vstd::prelude::*;

verus! {

/// A moment as the dashboard reads it off the clock.
#[derive(Debug)]
pub struct Moment {
    /// The moment written out: date, time and offset from UTC.
    pub stamp: String,
    /// The month of the moment, from 1 to 12.
    pub month: u8,
    /// The year of the moment.
    pub year: i32,
}

/// The present moment in the time zone of the machine. Calls
/// `chrono::Local::now`, writes the value with its `Display` impl, which
/// writes the date and time, a space and the offset, so the text is never
/// empty, and reads its month and year with `Datelike::month`, which
/// ranges from 1 to 12, and `Datelike::year`. Nothing else is claimed: what
/// comes back depends on the clock and on the time zone.
#[verifier::external_body]
pub(crate) fn now() -> (moment: Moment)
    ensures
        1 <= moment.month <= 12,
        moment.stamp@.len() > 0,
{
    let current_now = chrono::Local::now();
    Moment {
        stamp: current_now.to_string(),
        month: chrono::Datelike::month(&current_now) as u8,
        year: chrono::Datelike::year(&current_now),
    }
}

} // verus!
