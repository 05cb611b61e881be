//! The bar's clock pill: the time of day as `HH:MM:SS`.
use vstd::prelude::*;
use crate::quicksettings::{push_two_digits, two_digits};
use crate::text::{chars_of, push_all, string_from_chars};

verus! {

/// The clock pill. It holds no state: every tick the application reads the
/// local time and asks for its text.
pub struct ClockModule;

impl ClockModule {
    /// The pill's text for a local time of day, zero-padded `HH:MM:SS`
    /// (a leap second shows as `60`).
    pub fn text_for(&self, hour: u32, minute: u32, second: u32) -> (r: String)
        requires
            hour < 24,
            minute < 60,
            second <= 60,
        ensures
            r@ == two_digits(hour as nat) + ":"@ + two_digits(minute as nat) + ":"@
                + two_digits(second as nat),
    {
        let mut out: Vec<char> = Vec::new();
        push_two_digits(&mut out, hour);
        let colon = chars_of(":");
        push_all(&mut out, colon.as_slice());
        push_two_digits(&mut out, minute);
        push_all(&mut out, colon.as_slice());
        push_two_digits(&mut out, second);
        string_from_chars(out.as_slice())
    }
}

} // verus!
