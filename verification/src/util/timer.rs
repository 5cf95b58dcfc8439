//! Measuring how long a run takes, and showing the time in readable units.
use vstd::prelude::*;
use crate::text::{chars_to_string, nat_digits, push_str, push_u64};
use std::time::{Duration, Instant};

verus! {

#[verifier::external_type_specification]
#[verifier::external_body]
pub struct ExInstant(std::time::Instant);

/// `std::time::Instant::now`: the current moment of the monotonic clock.
/// Nothing is promised of it.
#[verifier::external_body]
fn instant_now() -> Instant {
    Instant::now()
}

/// `Instant::elapsed`: the time from `start` to now (zero if the clock
/// reads earlier). It depends on the clock, so nothing is promised of it.
#[verifier::external_body]
fn instant_elapsed(start: &Instant) -> Duration {
    start.elapsed()
}

/// `Duration::as_micros`: the whole microseconds of `d`. `Duration` is opaque
/// here, so nothing is stated of the number.
#[verifier::external_body]
fn duration_micros(d: &Duration) -> u128 {
    d.as_micros()
}

/// A time span in the largest unit that is not zero: whole seconds (`s`),
/// else whole milliseconds (`ms`), else microseconds (`μ`).
pub open spec fn duration_text(micros: u64) -> Seq<char> {
    if micros / 1_000_000 != 0 {
        nat_digits((micros / 1_000_000) as nat) + "s"@
    } else if micros / 1_000 != 0 {
        nat_digits((micros / 1_000) as nat) + "ms"@
    } else {
        nat_digits(micros as nat) + seq!['μ']
    }
}

/// Shows a time span of `micros` microseconds; see [`duration_text`].
pub fn duration_to_readable_time(micros: u64) -> (r: String)
    ensures
        r@ == duration_text(micros),
{
    let mut out: Vec<char> = Vec::new();
    let secs = micros / 1_000_000;
    if secs != 0 {
        push_u64(&mut out, secs);
        push_str(&mut out, "s");
        proof { reveal_strlit("s"); }
    } else {
        let millis = micros / 1_000;
        if millis != 0 {
            push_u64(&mut out, millis);
            push_str(&mut out, "ms");
            proof { reveal_strlit("ms"); }
        } else {
            push_u64(&mut out, micros);
            out.push('μ');
        }
    }
    assert(out@ =~= duration_text(micros));
    chars_to_string(&out)
}

/// A clock started at a moment.
pub struct Timer {
    pub start: Instant,
}

impl Timer {
    /// A timer started now.
    pub fn new() -> (r: Self) {
        Self { start: instant_now() }
    }

    /// The time since the start, shown; see [`duration_text`]. A span longer
    /// than `u64::MAX` microseconds is shown as `u64::MAX` microseconds.
    pub fn finish(&self) -> (r: String)
        ensures
            exists|n: u64| r@ == #[trigger] duration_text(n),
    {
        let elapsed = instant_elapsed(&self.start);
        let micros = duration_micros(&elapsed);
        let n: u64 = if micros > u64::MAX as u128 { u64::MAX } else { micros as u64 };
        duration_to_readable_time(n)
    }
}

} // verus!
