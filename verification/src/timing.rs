//! A stopwatch, and conversions between durations and nanosecond counts.
//!
//! Durations and instants are those of the standard library. Verus does not
//! look inside them: what a duration holds is named by [`whole_seconds`] and
//! [`subsec_nanos`], and the few operations used here state their effect on
//! those two numbers as the standard library documents it. These statements
//! are believed, not proved.
use vstd::prelude::*;
use std::time::{Duration, Instant};

verus! {

#[verifier::external_type_specification]
#[verifier::external_body]
pub struct ExInstant(std::time::Instant);

/// The whole seconds that a duration holds.
pub uninterp spec fn whole_seconds(d: Duration) -> u64;

/// The part of a duration below one second, in nanoseconds.
pub uninterp spec fn subsec_nanos(d: Duration) -> u32;

/// Nanoseconds in a second.
pub const NANOS_PER_SEC: u64 = 1_000_000_000;

/// The length of a duration in nanoseconds.
pub open spec fn total_nanos(d: Duration) -> nat {
    (whole_seconds(d) * 1_000_000_000 + subsec_nanos(d)) as nat
}

/// The length of the longest duration in nanoseconds.
pub open spec fn longest_nanos() -> nat {
    (u64::MAX * 1_000_000_000 + 999_999_999) as nat
}

/// `Duration::as_secs`: the whole seconds of `d`.
#[verifier::external_body]
fn as_secs(d: &Duration) -> (secs: u64)
    ensures
        secs == whole_seconds(*d),
{
    d.as_secs()
}

/// `Duration::subsec_nanos`: the part of `d` below one second, in
/// nanoseconds, which is less than a second.
#[verifier::external_body]
fn subsec(d: &Duration) -> (nanos: u32)
    ensures
        nanos == subsec_nanos(*d),
        nanos < 1_000_000_000,
{
    d.subsec_nanos()
}

/// `Duration::new`: the duration of `secs` seconds and `nanos` nanoseconds.
/// A nanosecond count of a second or more would carry into the seconds and
/// may panic there, so it is not admitted.
#[verifier::external_body]
fn duration_new(secs: u64, nanos: u32) -> (d: Duration)
    requires
        nanos < 1_000_000_000,
    ensures
        whole_seconds(d) == secs,
        subsec_nanos(d) == nanos,
{
    Duration::new(secs, nanos)
}

/// `Duration::saturating_add`: the sum of two durations, or the longest
/// duration where the sum is longer than that.
#[verifier::external_body]
fn saturating_sum(a: Duration, b: Duration) -> (sum: Duration)
    ensures
        total_nanos(sum) == if total_nanos(a) + total_nanos(b) <= longest_nanos() {
            total_nanos(a) + total_nanos(b)
        } else {
            longest_nanos()
        },
        subsec_nanos(sum) < 1_000_000_000,
{
    a.saturating_add(b)
}

/// `Instant::now`: the present moment. Nothing is known of it.
#[verifier::external_body]
fn now() -> Instant {
    Instant::now()
}

/// `Instant::elapsed`: the time that has passed since `start`. Nothing is
/// known of it.
#[verifier::external_body]
fn since(start: &Instant) -> Duration {
    start.elapsed()
}

/// `Clone` for `Duration`: a duration is copied bit by bit, so the clone is
/// the duration itself.
pub assume_specification[ <Duration as Clone>::clone ](d: &Duration) -> (copy: Duration)
    ensures
        copy == *d,
;

/// `Clone` for `Instant`: an instant is copied bit by bit, so the clone is
/// the instant itself.
pub assume_specification[ <Instant as Clone>::clone ](at: &Instant) -> (copy: Instant)
    ensures
        copy == *at,
;

/// The number of nanoseconds in `duration`, which has to fit into 64 bits.
pub fn duration_to_nanos(duration: Duration) -> (nanos: u64)
    requires
        total_nanos(duration) <= u64::MAX,
    ensures
        nanos == total_nanos(duration),
{
    let secs = as_secs(&duration);
    let sub = subsec(&duration);
    secs * NANOS_PER_SEC + sub as u64
}

/// The number of nanoseconds in `duration`, or nothing where that number
/// does not fit into 64 bits.
pub fn checked_duration_to_nanos(duration: Duration) -> (nanos: Option<u64>)
    ensures
        total_nanos(duration) <= u64::MAX ==> nanos == Some(total_nanos(duration) as u64),
        total_nanos(duration) > u64::MAX ==> nanos.is_none(),
{
    let secs = as_secs(&duration);
    let sub = subsec(&duration);
    if secs <= (u64::MAX - sub as u64) / NANOS_PER_SEC {
        assert(secs * 1_000_000_000 + sub <= u64::MAX) by (nonlinear_arith)
            requires
                secs <= (u64::MAX - sub) / 1_000_000_000,
        ;
        Some(duration_to_nanos(duration))
    } else {
        assert(secs * 1_000_000_000 + sub > u64::MAX) by (nonlinear_arith)
            requires
                secs > (u64::MAX - sub) / 1_000_000_000,
                sub < 1_000_000_000,
        ;
        None
    }
}

/// The duration of `nanos` nanoseconds.
pub fn nanos_to_duration(nanos: u64) -> (duration: Duration)
    ensures
        whole_seconds(duration) == nanos / 1_000_000_000,
        subsec_nanos(duration) == nanos % 1_000_000_000,
        total_nanos(duration) == nanos,
{
    duration_new(nanos / NANOS_PER_SEC, (nanos % NANOS_PER_SEC) as u32)
}

/// A stopwatch that adds up the time over which it ran.
#[derive(Clone, Debug, Eq, PartialEq)]
pub enum Stopwatch {
    /// Never started, or reset.
    Waiting,
    /// Running: the time added up before it was last started, and the moment
    /// at which it was last started.
    Started(Duration, Instant),
    /// Stopped: the time added up.
    Ended(Duration),
}

impl Default for Stopwatch {
    fn default() -> (watch: Stopwatch)
        ensures
            watch is Waiting,
    {
        Stopwatch::Waiting
    }
}

impl Stopwatch {
    /// The time that the stopwatch shows when it has been running for
    /// `running` since it was last started: nothing while it waits, the time
    /// added up once it is stopped, and that time plus `running` while it
    /// runs. The sum stops at the longest duration.
    pub open spec fn shows(self, running: Duration, shown: Duration) -> bool {
        match self {
            Stopwatch::Waiting => total_nanos(shown) == 0,
            Stopwatch::Started(before, _) => total_nanos(shown) == if total_nanos(before)
                + total_nanos(running) <= longest_nanos() {
                total_nanos(before) + total_nanos(running)
            } else {
                longest_nanos()
            },
            Stopwatch::Ended(total) => shown == total,
        }
    }

    /// What stopping does when the stopwatch has been running for `running`
    /// since it was last started: a running stopwatch ends with the time it
    /// shows, and any other is left alone.
    pub open spec fn stops_as(self, running: Duration, stopped: Stopwatch) -> bool {
        match self {
            Stopwatch::Started(_, _) => stopped matches Stopwatch::Ended(total) && self.shows(
                running,
                total,
            ),
            _ => stopped == self,
        }
    }

    /// A stopwatch that waits.
    pub fn new() -> (watch: Stopwatch)
        ensures
            watch is Waiting,
    {
        Stopwatch::Waiting
    }

    /// The time shown, given the time `running` since the last start.
    pub fn elapsed_after(&self, running: Duration) -> (shown: Duration)
        ensures
            self.shows(running, shown),
    {
        match *self {
            Stopwatch::Waiting => duration_new(0, 0),
            Stopwatch::Started(before, _) => saturating_sum(before, running),
            Stopwatch::Ended(total) => total,
        }
    }

    /// The time shown now: what `elapsed_after` gives for the time that the
    /// clock says has passed since the last start.
    pub fn elapsed(&self) -> (shown: Duration)
        ensures
            exists|running: Duration| self.shows(running, shown),
    {
        match *self {
            Stopwatch::Started(_, start) => {
                let running = since(&start);
                self.elapsed_after(running)
            },
            _ => self.elapsed_after(duration_new(0, 0)),
        }
    }

    /// Starts the stopwatch anew: it runs, with no time added up.
    pub fn restart(&mut self)
        ensures
            *final(self) matches Stopwatch::Started(before, _) && total_nanos(before) == 0,
    {
        *self = Stopwatch::Started(duration_new(0, 0), now());
    }

    /// Starts the stopwatch: one that waits runs from nothing, one that was
    /// stopped runs on from the time it had added up, and one that runs is
    /// left alone.
    pub fn start(&mut self)
        ensures
            *old(self) is Waiting ==> (*final(self) matches Stopwatch::Started(before, _)
                && total_nanos(before) == 0),
            *old(self) matches Stopwatch::Ended(total) ==> (*final(self) matches Stopwatch::Started(
                before,
                _,
            ) && before == total),
            *old(self) is Started ==> *final(self) == *old(self),
    {
        match *self {
            Stopwatch::Waiting => self.restart(),
            Stopwatch::Ended(total) => {
                *self = Stopwatch::Started(total, now());
            },
            _ => {},
        }
    }

    /// Stops the stopwatch after it has been running for `running`: a
    /// running one ends with the time it shows, any other is left alone.
    pub fn stop_after(&mut self, running: Duration)
        ensures
            old(self).stops_as(running, *final(self)),
    {
        if let Stopwatch::Started(before, _) = *self {
            *self = Stopwatch::Ended(saturating_sum(before, running));
        }
    }

    /// Stops the stopwatch now: what `stop_after` does for the time that the
    /// clock says has passed since the last start.
    pub fn stop(&mut self)
        ensures
            exists|running: Duration| old(self).stops_as(running, *final(self)),
            !(*old(self) is Started) ==> *final(self) == *old(self),
    {
        if let Stopwatch::Started(_, start) = *self {
            let running = since(&start);
            self.stop_after(running);
        } else {
            let ghost any = arbitrary::<Duration>();
            assert(old(self).stops_as(any, *self));
        }
    }

    /// Puts the stopwatch back to waiting.
    pub fn reset(&mut self)
        ensures
            *final(self) is Waiting,
    {
        *self = Stopwatch::Waiting;
    }
}

} // verus!
