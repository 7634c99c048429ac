//! The clocks: time stamps, durations, and the time since a run started.

use std::time::{Duration, Instant, SystemTime, SystemTimeError};
use vstd::prelude::*;

verus! {

/// A point of the system clock.
#[verifier::external_type_specification]
#[verifier::external_body]
pub struct ExSystemTime(std::time::SystemTime);

/// The error of [`SystemTime::duration_since`] for a later point.
#[verifier::external_type_specification]
#[verifier::external_body]
pub struct ExSystemTimeError(std::time::SystemTimeError);

/// A point of the monotonic clock.
#[verifier::external_type_specification]
#[verifier::external_body]
pub struct ExInstant(std::time::Instant);

/// `SystemTime::now` reads the system clock. Nothing is claimed of the result.
pub assume_specification[ SystemTime::now ]() -> SystemTime
;

/// `Instant::now` reads the monotonic clock. Nothing is claimed of the result.
pub assume_specification[ Instant::now ]() -> Instant
;

/// `Instant::elapsed` measures the time since a point of the monotonic clock.
/// Nothing is claimed of the result.
pub assume_specification[ Instant::elapsed ](since: &Instant) -> Duration
;

/// The number that `Duration::as_nanos` gives for a duration.
pub uninterp spec fn whole_nanos(duration: Duration) -> u128;

/// `Duration::as_nanos` counts the nanoseconds of a duration. The number
/// depends on the duration alone.
pub assume_specification[ Duration::as_nanos ](duration: &Duration) -> (res: u128)
    ensures
        res == whole_nanos(*duration),
;

/// `Duration::as_millis` counts the whole milliseconds of a duration.
pub assume_specification[ Duration::as_millis ](duration: &Duration) -> (res: u128)
    ensures
        res == whole_nanos(*duration) / 1_000_000,
;

/// `Duration::from_secs` makes a duration of whole seconds.
pub assume_specification[ Duration::from_secs ](secs: u64) -> (res: Duration)
    ensures
        whole_nanos(res) == secs * 1_000_000_000,
;

/// How far a point of the system clock lies after the start of the Unix era,
/// as `SystemTime::duration_since` measures it, if it does not lie before it.
pub uninterp spec fn since_unix_epoch(time: SystemTime) -> Option<Duration>;

/// `SystemTime::duration_since`, asked about the start of the Unix era, gives
/// the time from there to the point, and an error for a point before it. Which
/// it is, and the duration, depend on the point alone.
#[verifier::external_body]
fn since_epoch(time: &SystemTime) -> (res: Result<Duration, SystemTimeError>)
    ensures
        match res {
            Ok(elapsed) => since_unix_epoch(*time) == Some(elapsed),
            Err(_) => since_unix_epoch(*time) is None,
        },
{
    time.duration_since(SystemTime::UNIX_EPOCH)
}

/// The time stamp of a point of the system clock: the whole milliseconds since
/// the start of the Unix era, or 0 for a point before it.
pub open spec fn stamp_at(time: SystemTime) -> u128 {
    match since_unix_epoch(time) {
        Some(elapsed) => whole_nanos(elapsed) / 1_000_000,
        None => 0,
    }
}

/// The time stamp of a point of the system clock.
pub fn millis_at(time: &SystemTime) -> (res: u128)
    ensures
        res == stamp_at(*time),
{
    match since_epoch(time) {
        Ok(elapsed) => elapsed.as_millis(),
        Err(_) => 0,
    }
}

/// What a reading function gives for a point.
fn measure<F: Fn(&Instant) -> Duration>(read: F, since: &Instant) -> (res: Duration)
    requires
        call_requires(read, (since,)),
    ensures
        call_ensures(read, (since,), res),
{
    read(since)
}

/// What a starting function gives.
fn begin<F: Fn() -> Instant>(start: F) -> (res: Instant)
    requires
        call_requires(start, ()),
    ensures
        call_ensures(start, (), res),
{
    start()
}

/// A stopwatch keeps a history of its readings: the point each was measured
/// from, and the time since then.
pub struct Stopwatch {
    readings: Ghost<Seq<(Instant, Duration)>>,
}

impl Stopwatch {
    /// The readings so far, oldest first.
    pub closed spec fn readings(&self) -> Seq<(Instant, Duration)> {
        self.readings@
    }

    /// A stopwatch that has not been read.
    pub fn new() -> (res: Stopwatch)
        ensures
            res.readings() == Seq::<(Instant, Duration)>::empty(),
    {
        Stopwatch { readings: Ghost(Seq::empty()) }
    }

    /// The point at which the monotonic clock stands, to measure from. This is
    /// no reading.
    pub fn start(&self) -> (res: Instant)
        ensures
            call_ensures(Instant::now, (), res),
    {
        begin(Instant::now)
    }

    /// Reads the time since `started`.
    pub fn read(&mut self, started: &Instant) -> (res: Duration)
        ensures
            call_ensures(Instant::elapsed, (started,), res),
            final(self).readings() == old(self).readings().push((*started, res)),
    {
        let elapsed = measure(Instant::elapsed, started);
        self.readings = Ghost(self.readings@.push((*started, elapsed)));
        elapsed
    }
}

/// The readings were all measured from one point, at which a measurement was
/// started, and each is what the monotonic clock gave.
pub open spec fn from_one_start(readings: Seq<(Instant, Duration)>) -> bool {
    forall|i: int|
        0 <= i < readings.len() ==> {
            &&& (#[trigger] readings[i]).0 == readings[0].0
            &&& call_ensures(Instant::now, (), readings[i].0)
            &&& call_ensures(Instant::elapsed, (&readings[i].0,), readings[i].1)
        }
}

/// The times that were read.
pub open spec fn times_read(readings: Seq<(Instant, Duration)>) -> Seq<Duration> {
    Seq::new(readings.len(), |i: int| readings[i].1)
}

/// These times were measured from one point, at which a measurement was
/// started.
pub open spec fn measured_from(started: Instant, times: Seq<Duration>) -> bool {
    &&& call_ensures(Instant::now, (), started)
    &&& forall|i: int|
        0 <= i < times.len() ==> call_ensures(
            Instant::elapsed,
            (&started,),
            #[trigger] times[i],
        )
}

/// The readings that give these times, all measured from one point.
pub open spec fn all_from(started: Instant, times: Seq<Duration>) -> Seq<(Instant, Duration)> {
    Seq::new(times.len(), |i: int| (started, times[i]))
}

/// Readings that were measured from one point.
pub proof fn lemma_all_from(started: Instant, times: Seq<Duration>)
    requires
        measured_from(started, times),
    ensures
        from_one_start(all_from(started, times)),
        times_read(all_from(started, times)) == times,
{
    assert(times_read(all_from(started, times)) =~= times);
}

/// A time stamp counts the milliseconds that have passed in full since the
/// start of the Unix era, and is 0 for a point before it.
pub proof fn law_stamp_counts_full_milliseconds(time: &SystemTime, stamp: u128)
    requires
        call_ensures(millis_at, (time,), stamp),
    ensures
        match since_unix_epoch(*time) {
            Some(elapsed) => stamp * 1_000_000 <= whole_nanos(elapsed) < (stamp + 1) * 1_000_000,
            None => stamp == 0,
        },
{
}

/// Readings from one start share that start: any two of them were measured from
/// the same point, which the monotonic clock gave, and each is what the clock
/// showed since then. The times read are those of the readings, one for one.
pub proof fn law_readings_share_their_start(
    readings: Seq<(Instant, Duration)>,
    i: int,
    j: int,
)
    requires
        from_one_start(readings),
        0 <= i < readings.len(),
        0 <= j < readings.len(),
    ensures
        readings[i].0 == readings[j].0,
        call_ensures(Instant::now, (), readings[i].0),
        call_ensures(Instant::elapsed, (&readings[i].0,), readings[i].1),
        times_read(readings).len() == readings.len(),
        times_read(readings)[i] == readings[i].1,
{
}

} // verus!
