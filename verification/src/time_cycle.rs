//! The clock of the village: the day, the time of day, and how fast it runs.

use vstd::prelude::*;
use vstd::arithmetic::div_mod::lemma_add_mod_noop_right;

verus! {

/// Nanoseconds in a second.
pub const NANOS_PER_SECOND: u64 = 1_000_000_000;

/// Nanoseconds in a day.
pub const NANOS_PER_DAY: u64 = 86_400_000_000_000;

/// A time of day, as the hands of a clock show it.
#[derive(Clone, Copy, PartialEq, Eq, Structural, Debug)]
pub struct ClockTime {
    pub hour: u8,
    pub minute: u8,
    pub second: u8,
    pub nanosecond: u32,
}

impl ClockTime {
    /// Every part is in its range.
    pub open spec fn wf(self) -> bool {
        &&& self.hour < 24
        &&& self.minute < 60
        &&& self.second < 60
        &&& self.nanosecond < NANOS_PER_SECOND
    }

    /// Computes `wf`.
    pub fn is_wf(&self) -> (ok: bool)
        ensures
            ok == self.wf(),
    {
        self.hour < 24 && self.minute < 60 && self.second < 60 && (self.nanosecond as u64)
            < NANOS_PER_SECOND
    }

    /// Nanoseconds since midnight.
    pub open spec fn nanos(self) -> int {
        ((self.hour * 60 + self.minute) * 60 + self.second) * NANOS_PER_SECOND + self.nanosecond
    }

    /// Computes `nanos`.
    pub fn since_midnight(&self) -> (nanos: u64)
        requires
            self.wf(),
        ensures
            nanos == self.nanos(),
            nanos < NANOS_PER_DAY,
    {
        ((self.hour as u64 * 60 + self.minute as u64) * 60 + self.second as u64)
            * NANOS_PER_SECOND + self.nanosecond as u64
    }
}

/// `time::Time::from_hms`: the time of day with these parts and no
/// nanoseconds, where each part is in its range, and else an error, which is
/// handed on as `None`.
#[verifier::external_body]
fn from_hms(hour: u8, minute: u8, second: u8) -> (clock: Option<ClockTime>)
    ensures
        hour < 24 && minute < 60 && second < 60 ==> clock == Some(
            (ClockTime { hour, minute, second, nanosecond: 0 }),
        ),
        hour >= 24 || minute >= 60 || second >= 60 ==> clock is None,
{
    match time::Time::from_hms(hour, minute, second) {
        Ok(at) => Some(
            ClockTime {
                hour: at.hour(),
                minute: at.minute(),
                second: at.second(),
                nanosecond: at.nanosecond(),
            },
        ),
        Err(_) => None,
    }
}

/// `time::Time + std::time::Duration`: the time of day that many seconds and
/// nanoseconds later, going round at midnight. `time::Time::from_hms_nano`
/// fails on a part out of range and `Duration::new` on a count of
/// nanoseconds that is a second or more: `requires` leaves both out.
#[verifier::external_body]
fn later(clock: ClockTime, secs: u64, nanos: u32) -> (sum: ClockTime)
    requires
        clock.wf(),
        nanos < NANOS_PER_SECOND,
    ensures
        sum.wf(),
        sum.nanos() == (clock.nanos() + secs * NANOS_PER_SECOND + nanos) % (NANOS_PER_DAY as int),
{
    let start = time::Time::from_hms_nano(clock.hour, clock.minute, clock.second, clock.nanosecond);
    let sum = start.unwrap() + std::time::Duration::new(secs, nanos);
    ClockTime {
        hour: sum.hour(),
        minute: sum.minute(),
        second: sum.second(),
        nanosecond: sum.nanosecond(),
    }
}

/// The character of a decimal digit.
pub open spec fn digit(d: nat) -> char {
    if d == 0 {
        '0'
    } else if d == 1 {
        '1'
    } else if d == 2 {
        '2'
    } else if d == 3 {
        '3'
    } else if d == 4 {
        '4'
    } else if d == 5 {
        '5'
    } else if d == 6 {
        '6'
    } else if d == 7 {
        '7'
    } else if d == 8 {
        '8'
    } else {
        '9'
    }
}

/// A number in decimal digits.
pub open spec fn decimal(n: nat) -> Seq<char>
    decreases n,
{
    if n < 10 {
        seq![digit(n)]
    } else {
        decimal(n / 10).push(digit(n % 10))
    }
}

/// A number in decimal digits, with a zero in front where it has one digit.
pub open spec fn two_digits(n: nat) -> Seq<char> {
    if n < 10 {
        seq!['0', digit(n)]
    } else {
        decimal(n)
    }
}

/// What the clock shows: the day, the word `day`, and hour and minute with a colon
/// between them, as in `3day 07:05`.
pub open spec fn clock_text(day: u64, hour: u8, minute: u8) -> Seq<char> {
    decimal(day as nat) + seq!['d', 'a', 'y', ' '] + two_digits(hour as nat) + seq![':']
        + two_digits(minute as nat)
}

/// `format!` with `{}` for the day and `{:02}` for hour and minute: a number
/// comes out in decimal digits, and `02` puts a zero before a single digit.
#[verifier::external_body]
fn format_clock(day: u64, hour: u8, minute: u8) -> (text: String)
    ensures
        text@ == clock_text(day, hour, minute),
{
    format!("{}day {:02}:{:02}", day, hour, minute)
}

/// The clock: which day it is, what time, and how many times faster than a
/// real clock it runs.
#[derive(Clone, Copy, PartialEq, Eq, Structural, Debug)]
pub struct TimeCycle {
    pub day: u64,
    pub time: ClockTime,
    pub speed: u32,
}

impl Default for TimeCycle {
    /// Day nought, seven in the morning, four hundred times the real speed.
    fn default() -> (clock: Self)
        ensures
            clock == (TimeCycle {
                day: 0,
                time: ClockTime { hour: 7, minute: 0, second: 0, nanosecond: 0 },
                speed: 400,
            }),
    {
        Self { day: 0, time: from_hms(7, 0, 0).unwrap(), speed: 400 }
    }
}

impl TimeCycle {
    /// The time of day is sound.
    pub open spec fn wf(self) -> bool {
        self.time.wf()
    }

    /// The nanoseconds that the clock goes forward while `delta_secs` seconds
    /// and `delta_nanos` nanoseconds pass for real.
    pub open spec fn run(self, delta_secs: u64, delta_nanos: u32) -> int {
        (delta_secs * NANOS_PER_SECOND + delta_nanos) * self.speed
    }

    /// The time of day, in nanoseconds since midnight, after the clock has
    /// gone forward by `run`.
    pub open spec fn time_after(self, delta_secs: u64, delta_nanos: u32) -> int {
        (self.time.nanos() + self.run(delta_secs, delta_nanos)) % (NANOS_PER_DAY as int)
    }

    /// From six in the evening to the end of the hour of five in the morning.
    pub fn is_night(&self) -> (night: bool)
        ensures
            night == (self.time.hour >= 18 || self.time.hour <= 5),
    {
        let hour: u8 = self.time.hour;
        hour >= 18 || hour <= 5
    }

    /// What the clock shows.
    pub fn to_string(&self) -> (text: String)
        ensures
            text@ == clock_text(self.day, self.time.hour, self.time.minute),
    {
        format_clock(self.day, self.time.hour, self.time.minute)
    }
}

/// Lets the clock go forward while `delta_secs` seconds and `delta_nanos`
/// nanoseconds pass for real. The time of day goes round at midnight, and
/// the day goes up by one where the new time is not later than the old one.
pub fn time_cycle_system(time_cycle: &mut TimeCycle, delta_secs: u64, delta_nanos: u32)
    requires
        old(time_cycle).wf(),
        old(time_cycle).day < u64::MAX,
    ensures
        final(time_cycle).wf(),
        final(time_cycle).speed == old(time_cycle).speed,
        final(time_cycle).time.nanos() == old(time_cycle).time_after(delta_secs, delta_nanos),
        final(time_cycle).day == if final(time_cycle).time.nanos() <= old(time_cycle).time.nanos() {
            old(time_cycle).day + 1
        } else {
            old(time_cycle).day as int
        },
{
    let per_second: u128 = NANOS_PER_SECOND as u128;
    assert(delta_secs * per_second <= 0xFFFF_FFFF_FFFF_FFFF * 1_000_000_000) by (nonlinear_arith)
        requires
            0 <= delta_secs <= 0xFFFF_FFFF_FFFF_FFFF,
            per_second == 1_000_000_000,
    ;
    let elapsed: u128 = delta_secs as u128 * per_second + delta_nanos as u128;
    proof {
        assert(elapsed * time_cycle.speed <= 0x8000_0000_0000_0000_0000_0000 * 0x1_0000_0000)
            by (nonlinear_arith)
            requires
                0 <= elapsed <= 0x8000_0000_0000_0000_0000_0000,
                0 <= time_cycle.speed <= 0x1_0000_0000,
        ;
    }
    let run: u128 = elapsed * time_cycle.speed as u128;
    let within_day: u64 = (run % NANOS_PER_DAY as u128) as u64;
    let secs: u64 = within_day / NANOS_PER_SECOND;
    let nanos: u32 = (within_day % NANOS_PER_SECOND) as u32;
    let now: ClockTime = later(time_cycle.time, secs, nanos);
    proof {
        lemma_add_mod_noop_right(time_cycle.time.nanos(), run as int, NANOS_PER_DAY as int);
    }
    if now.since_midnight() <= time_cycle.time.since_midnight() {
        time_cycle.day = time_cycle.day + 1;
    }
    time_cycle.time = now;
}

} // verus!
