//! Battery module state: sysfs readings and how the bar shows them.
use core::time::Duration;
use vstd::prelude::*;
use crate::text::{chars_of, chars_eq, parse_unsigned, parse_unsigned_chars, trim, trim_chars};

verus! {

/// Charging state as the kernel's `status` attribute reports it.
#[derive(PartialEq, Eq, Structural, Clone, Copy, Debug)]
pub enum BatteryStatus {
    Charging,
    Discharging,
    Full,
    Unknown,
}

impl Default for BatteryStatus {
    fn default() -> (s: Self)
        ensures
            s == BatteryStatus::Unknown,
    {
        BatteryStatus::Unknown
    }
}

/// Whether two optional durations are equal.
/// Trusted: `Duration`'s `PartialEq` is derived, so it compares the stored
/// seconds and nanoseconds, which is equality of the values.
#[verifier::external_body]
fn same_duration(a: &Option<Duration>, b: &Option<Duration>) -> (r: bool)
    ensures
        r == (*a == *b),
{
    a == b
}

/// A time estimate is shown only while charging or discharging.
pub open spec fn gated_time(status: BatteryStatus, t: Option<Duration>) -> Option<Duration> {
    if status == BatteryStatus::Charging || status == BatteryStatus::Discharging { t } else { None }
}

/// The battery module's state: the last reading of the first `BAT*` device.
pub struct BatteryModule {
    capacity: Option<u8>,
    status: BatteryStatus,
    /// Estimated time to empty (discharging) or to full (charging).
    time_remaining: Option<Duration>,
    device: Option<String>,
}

impl BatteryModule {
    /// A time estimate is held only while charging or discharging.
    #[verifier::type_invariant]
    spec fn time_only_when_moving(&self) -> bool {
        self.time_remaining is Some ==> (self.status == BatteryStatus::Charging
            || self.status == BatteryStatus::Discharging)
    }

    /// A module for `device` showing the given first reading (its time
    /// estimate kept only while charging or discharging).
    pub fn with_reading(
        device: Option<String>,
        capacity: Option<u8>,
        status: BatteryStatus,
        time_remaining: Option<Duration>,
    ) -> (m: Self)
        ensures
            m.spec_capacity() == capacity,
            m.spec_status() == status,
            m.spec_time_remaining() == gated_time(status, time_remaining),
            m.spec_device() == device,
    {
        let t = gate_time(status, time_remaining);
        BatteryModule { capacity, status, time_remaining: t, device }
    }

    pub closed spec fn spec_capacity(&self) -> Option<u8> {
        self.capacity
    }

    pub closed spec fn spec_status(&self) -> BatteryStatus {
        self.status
    }

    pub closed spec fn spec_time_remaining(&self) -> Option<Duration> {
        self.time_remaining
    }

    pub closed spec fn spec_device(&self) -> Option<String> {
        self.device
    }

    pub fn capacity(&self) -> (c: Option<u8>)
        ensures
            c == self.spec_capacity(),
    {
        self.capacity
    }

    pub fn status(&self) -> (s: BatteryStatus)
        ensures
            s == self.spec_status(),
    {
        self.status
    }

    /// The estimated time to empty or to full; only ever given while
    /// charging or discharging.
    pub fn time_remaining(&self) -> (t: Option<Duration>)
        ensures
            t == self.spec_time_remaining(),
            t is Some ==> (self.spec_status() == BatteryStatus::Charging
                || self.spec_status() == BatteryStatus::Discharging),
    {
        proof { use_type_invariant(self); }
        self.time_remaining
    }

    /// The sysfs name of the battery being watched.
    pub fn device(&self) -> (d: Option<&str>)
        ensures
            match self.spec_device() {
                Some(s) => d is Some && d.unwrap()@ == s@,
                None => d is None,
            },
    {
        match &self.device {
            Some(s) => Some(s.as_str()),
            None => None,
        }
    }

    /// Take a new reading (its time estimate kept only while charging or
    /// discharging); returns whether anything changed (and so whether the
    /// bar must redraw).
    pub fn apply_reading(&mut self, capacity: Option<u8>, status: BatteryStatus, time_remaining: Option<Duration>) -> (changed: bool)
        ensures
            changed == (old(self).spec_capacity() != capacity || old(self).spec_status() != status
                || old(self).spec_time_remaining() != gated_time(status, time_remaining)),
            final(self).spec_capacity() == capacity,
            final(self).spec_status() == status,
            final(self).spec_time_remaining() == gated_time(status, time_remaining),
            final(self).spec_device() == old(self).spec_device(),
    {
        proof { use_type_invariant(&*self); }
        let t = gate_time(status, time_remaining);
        let changed = self.capacity != capacity || self.status != status
            || !same_duration(&self.time_remaining, &t);
        if changed {
            self.capacity = capacity;
            self.time_remaining = None;
            self.status = status;
            self.time_remaining = t;
        }
        changed
    }
}

fn gate_time(status: BatteryStatus, t: Option<Duration>) -> (r: Option<Duration>)
    ensures
        r == gated_time(status, t),
{
    if status == BatteryStatus::Charging || status == BatteryStatus::Discharging { t } else { None }
}

/// The status a `status` attribute's content denotes.
pub open spec fn spec_status_from_text(s: Seq<char>) -> BatteryStatus {
    let t = trim(s);
    if t == "Charging"@ {
        BatteryStatus::Charging
    } else if t == "Full"@ {
        BatteryStatus::Full
    } else if t == "Discharging"@ || t == "Not charging"@ {
        BatteryStatus::Discharging
    } else {
        BatteryStatus::Unknown
    }
}

fn eq_lit(t: &Vec<char>, lit: &str) -> (r: bool)
    ensures
        r == (t@ == lit@),
{
    let l = chars_of(lit);
    chars_eq(t.as_slice(), l.as_slice())
}

/// Interpret the `status` attribute; a missing file means `Unknown`.
pub fn status_from_text(content: Option<&str>) -> (s: BatteryStatus)
    ensures
        s == match content {
            Some(c) => spec_status_from_text(c@),
            None => BatteryStatus::Unknown,
        },
{
    match content {
        None => BatteryStatus::Unknown,
        Some(c) => {
            let cs = chars_of(c);
            let t = trim_chars(cs.as_slice());
            if eq_lit(&t, "Charging") {
                BatteryStatus::Charging
            } else if eq_lit(&t, "Full") {
                BatteryStatus::Full
            } else if eq_lit(&t, "Discharging") || eq_lit(&t, "Not charging") {
                BatteryStatus::Discharging
            } else {
                BatteryStatus::Unknown
            }
        },
    }
}

/// Interpret the `capacity` attribute: the trimmed content as a `u8`.
pub fn capacity_from_text(content: Option<&str>) -> (c: Option<u8>)
    ensures
        c == match content {
            Some(t) => match parse_unsigned(trim(t@), 255) {
                Some(v) => Some(v as u8),
                None => None,
            },
            None => None,
        },
{
    match content {
        None => None,
        Some(t) => {
            let cs = chars_of(t);
            let tr = trim_chars(cs.as_slice());
            match parse_unsigned_chars(tr.as_slice(), 255) {
                Some(v) => Some(v as u8),
                None => None,
            }
        },
    }
}

/// The glyph for a battery: charging, else by capacity bucket.
pub open spec fn spec_battery_icon(status: BatteryStatus, cap: u8) -> Seq<char> {
    if status == BatteryStatus::Charging {
        "\u{f0084}"@
    } else if cap <= 10 {
        "\u{f007a}"@
    } else if cap <= 30 {
        "\u{f007c}"@
    } else if cap <= 60 {
        "\u{f007e}"@
    } else if cap <= 90 {
        "\u{f0080}"@
    } else {
        "\u{f0079}"@
    }
}

pub fn battery_icon(status: BatteryStatus, cap: u8) -> (r: &'static str)
    ensures
        r@ == spec_battery_icon(status, cap),
{
    if status == BatteryStatus::Charging {
        "\u{f0084}"
    } else if cap <= 10 {
        "\u{f007a}"
    } else if cap <= 30 {
        "\u{f007c}"
    } else if cap <= 60 {
        "\u{f007e}"
    } else if cap <= 90 {
        "\u{f0080}"
    } else {
        "\u{f0079}"
    }
}

/// Which theme colour the battery pill uses.
#[derive(PartialEq, Eq, Structural, Clone, Copy, Debug)]
pub enum BatteryTone {
    Urgent,
    Warning,
    Success,
    Dim,
}

/// Critical at 10% or less, low at 25% or less, otherwise green while
/// charging and dim while not.
pub fn battery_tone(status: BatteryStatus, cap: u8) -> (t: BatteryTone)
    ensures
        t == if cap <= 10 {
            BatteryTone::Urgent
        } else if cap <= 25 {
            BatteryTone::Warning
        } else if status == BatteryStatus::Charging {
            BatteryTone::Success
        } else {
            BatteryTone::Dim
        },
{
    if cap <= 10 {
        BatteryTone::Urgent
    } else if cap <= 25 {
        BatteryTone::Warning
    } else if status == BatteryStatus::Charging {
        BatteryTone::Success
    } else {
        BatteryTone::Dim
    }
}

} // verus!
