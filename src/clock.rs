use vstd::prelude::*;

use crate::config::{TimeSource, NANOS_IN_SEC};

verus! {

/// Why a clock could not be set up or read.
#[derive(Clone, Copy, Debug, PartialEq, Eq, Structural)]
pub enum ClockError {
    /// The time-source name is none of `wall-clock`, `monotonic-clock`, `hardware-counter`.
    UnsupportedTimeSource,
    /// The hardware counter was chosen without a non-zero frequency.
    MissingFrequency,
    /// The system refused to read the clock.
    ReadFailed,
    /// The time in nanoseconds does not fit in an `i64`.
    OutOfRange,
}

/// The time-source named `name`, given the hardware counter's frequency if any.
pub open spec fn spec_time_source(name: Seq<char>, tsc_frequency_hz: Option<u64>) -> Result<
    TimeSource,
    ClockError,
> {
    if name == "wall-clock"@ {
        Ok(TimeSource::WallClock)
    } else if name == "monotonic-clock"@ {
        Ok(TimeSource::MonotonicClock)
    } else if name == "hardware-counter"@ {
        match tsc_frequency_hz {
            Some(f) if f > 0 => Ok(TimeSource::HardwareCounter),
            _ => Err(ClockError::MissingFrequency),
        }
    } else {
        Err(ClockError::UnsupportedTimeSource)
    }
}

pub open spec fn in_i64(x: int) -> bool {
    i64::MIN <= x <= i64::MAX
}

/// Nanoseconds since the epoch of a reading of whole seconds and nanoseconds.
pub open spec fn spec_timespec_nanos(sec: int, nsec: int) -> int {
    sec * NANOS_IN_SEC + nsec
}

/// A counter value in nanoseconds, at `frequency_hz` cycles per second, held
/// to `i64::MAX`.
pub open spec fn spec_counter_nanos(cycles: int, frequency_hz: int) -> int {
    let ns = cycles * 1_000_000_000 / frequency_hz;
    if ns > i64::MAX {
        i64::MAX as int
    } else {
        ns
    }
}

/// How far the wall clock is ahead of a secondary clock in one paired reading
/// `(secondary, wall)`.
pub open spec fn pair_gap(p: (i64, i64)) -> int {
    p.1 - p.0
}

/// The smallest gap over paired readings; at least one is needed.
pub open spec fn min_gap(pairs: Seq<(i64, i64)>) -> int
    decreases pairs.len(),
{
    if pairs.len() <= 1 {
        pair_gap(pairs[0])
    } else {
        let rest = min_gap(pairs.drop_last());
        let g = pair_gap(pairs.last());
        if g < rest {
            g
        } else {
            rest
        }
    }
}

/// Relies on nix's `clock_gettime(CLOCK_REALTIME)`: the seconds and
/// nanoseconds of the system real-time clock, or `None` where the call failed.
#[verifier::external_body]
fn realtime_parts() -> (r: Option<(i64, i64)>) {
    match nix::time::clock_gettime(nix::time::ClockId::CLOCK_REALTIME) {
        Ok(t) => Some((t.tv_sec() as i64, t.tv_nsec() as i64)),
        Err(_) => None,
    }
}

/// Relies on nix's `clock_gettime(CLOCK_MONOTONIC)`: the seconds and
/// nanoseconds of the system monotonic clock, or `None` where the call failed.
#[verifier::external_body]
fn monotonic_parts() -> (r: Option<(i64, i64)>) {
    match nix::time::clock_gettime(nix::time::ClockId::CLOCK_MONOTONIC) {
        Ok(t) => Some((t.tv_sec() as i64, t.tv_nsec() as i64)),
        Err(_) => None,
    }
}

fn same_chars(s: &str, lit: &str) -> (r: bool)
    ensures
        r == (s@ == lit@),
{
    let n = s.unicode_len();
    if n != lit.unicode_len() {
        return false;
    }
    let mut i: usize = 0;
    while i < n
        invariant
            n == s@.len() == lit@.len(),
            i <= n,
            forall|j: int| 0 <= j < i ==> s@[j] == lit@[j],
        decreases n - i,
    {
        if s.get_char(i) != lit.get_char(i) {
            return false;
        }
        i = i + 1;
    }
    assert(s@ =~= lit@);
    true
}

/// Resolves a time-source name: `wall-clock`, `monotonic-clock`, or
/// `hardware-counter`, which needs the counter's frequency in cycles per second.
pub fn configure_clock(time_source: &str, tsc_frequency_hz: Option<u64>) -> (r: Result<
    TimeSource,
    ClockError,
>)
    ensures
        r == spec_time_source(time_source@, tsc_frequency_hz),
{
    if same_chars(time_source, "wall-clock") {
        Ok(TimeSource::WallClock)
    } else if same_chars(time_source, "monotonic-clock") {
        Ok(TimeSource::MonotonicClock)
    } else if same_chars(time_source, "hardware-counter") {
        match tsc_frequency_hz {
            Some(f) => {
                if f > 0 {
                    Ok(TimeSource::HardwareCounter)
                } else {
                    Err(ClockError::MissingFrequency)
                }
            },
            None => Err(ClockError::MissingFrequency),
        }
    } else {
        Err(ClockError::UnsupportedTimeSource)
    }
}

/// `sec * 10^9 + nsec`, where that fits in an `i64`.
pub fn timespec_nanos(sec: i64, nsec: i64) -> (r: Result<i64, ClockError>)
    ensures
        match r {
            Ok(v) => v == spec_timespec_nanos(sec as int, nsec as int),
            Err(e) => e == ClockError::OutOfRange && !in_i64(
                spec_timespec_nanos(sec as int, nsec as int),
            ),
        },
{
    assert(-9223372036854775808 * 1000000000 <= sec * 1000000000 <= 9223372036854775807
        * 1000000000) by (nonlinear_arith)
        requires
            i64::MIN <= sec <= i64::MAX,
    ;
    let v: i128 = sec as i128 * NANOS_IN_SEC as i128 + nsec as i128;
    if v < i64::MIN as i128 || v > i64::MAX as i128 {
        Err(ClockError::OutOfRange)
    } else {
        Ok(v as i64)
    }
}

/// `a + b`, where that fits in an `i64`.
fn add_offset(a: i64, b: i64) -> (r: Result<i64, ClockError>)
    ensures
        match r {
            Ok(v) => v == a + b,
            Err(e) => e == ClockError::OutOfRange && !in_i64(a + b),
        },
{
    let v: i128 = a as i128 + b as i128;
    if v < i64::MIN as i128 || v > i64::MAX as i128 {
        Err(ClockError::OutOfRange)
    } else {
        Ok(v as i64)
    }
}

/// The real-time clock in nanoseconds since the epoch: the reference clock.
pub fn clock_realtime() -> (r: Result<i64, ClockError>)
    ensures
        r is Err ==> r == Err::<i64, ClockError>(ClockError::ReadFailed) || r == Err::<
            i64,
            ClockError,
        >(ClockError::OutOfRange),
{
    match realtime_parts() {
        Some((sec, nsec)) => timespec_nanos(sec, nsec),
        None => Err(ClockError::ReadFailed),
    }
}

/// A monotonic reading of `sec` seconds and `nsec` nanoseconds, in
/// nanoseconds and moved by `time_offset` onto the real-time clock's epoch.
pub fn monotonic_nanos(sec: i64, nsec: i64, time_offset: i64) -> (r: Result<i64, ClockError>)
    ensures
        match r {
            Ok(v) => v == spec_timespec_nanos(sec as int, nsec as int) + time_offset,
            Err(e) => e == ClockError::OutOfRange && (!in_i64(
                spec_timespec_nanos(sec as int, nsec as int),
            ) || !in_i64(spec_timespec_nanos(sec as int, nsec as int) + time_offset)),
        },
{
    match timespec_nanos(sec, nsec) {
        Ok(v) => add_offset(v, time_offset),
        Err(e) => Err(e),
    }
}

/// The monotonic clock in nanoseconds, moved by `time_offset` onto the
/// real-time clock's epoch.
pub fn clock_monotonic(time_offset: i64) -> (r: Result<i64, ClockError>)
    ensures
        r is Err ==> r == Err::<i64, ClockError>(ClockError::ReadFailed) || r == Err::<
            i64,
            ClockError,
        >(ClockError::OutOfRange),
{
    match monotonic_parts() {
        Some((sec, nsec)) => monotonic_nanos(sec, nsec, time_offset),
        None => Err(ClockError::ReadFailed),
    }
}

/// A hardware-counter value in nanoseconds: `cycles * 10^9 / frequency_hz`,
/// truncated, held to `i64::MAX`.
pub fn counter_nanos(cycles: u64, frequency_hz: u64) -> (r: i64)
    requires
        frequency_hz > 0,
    ensures
        r == spec_counter_nanos(cycles as int, frequency_hz as int),
{
    let ns: u128 = cycles as u128 * 1_000_000_000u128 / frequency_hz as u128;
    if ns > i64::MAX as u128 {
        i64::MAX
    } else {
        ns as i64
    }
}

/// A hardware-counter value as time on the real-time clock's epoch: its
/// nanoseconds plus the calibration offset.
pub fn clock_rdtsc(cycles: u64, frequency_hz: u64, time_offset: i64) -> (r: Result<
    i64,
    ClockError,
>)
    requires
        frequency_hz > 0,
    ensures
        match r {
            Ok(v) => v == spec_counter_nanos(cycles as int, frequency_hz as int) + time_offset,
            Err(e) => e == ClockError::OutOfRange && !in_i64(
                spec_counter_nanos(cycles as int, frequency_hz as int) + time_offset,
            ),
        },
{
    add_offset(counter_nanos(cycles, frequency_hz), time_offset)
}

/// The offset that brings the monotonic clock onto the real-time clock:
/// one real-time reading less one monotonic reading.
pub fn calibrate_monotonic() -> (r: Result<i64, ClockError>)
    ensures
        r is Err ==> r == Err::<i64, ClockError>(ClockError::ReadFailed) || r == Err::<
            i64,
            ClockError,
        >(ClockError::OutOfRange),
{
    let wall = match clock_realtime() {
        Ok(v) => v,
        Err(e) => return Err(e),
    };
    let mono = match clock_monotonic(0) {
        Ok(v) => v,
        Err(e) => return Err(e),
    };
    monotonic_offset(wall, mono)
}

/// The offset that brings a monotonic reading `mono` onto a real-time
/// reading `wall`: `wall - mono`, where that fits in an `i64`.
pub fn monotonic_offset(wall: i64, mono: i64) -> (r: Result<i64, ClockError>)
    ensures
        match r {
            Ok(v) => v == wall - mono,
            Err(e) => e == ClockError::OutOfRange && !in_i64(wall - mono),
        },
{
    let d: i128 = wall as i128 - mono as i128;
    if d < i64::MIN as i128 || d > i64::MAX as i128 {
        Err(ClockError::OutOfRange)
    } else {
        Ok(d as i64)
    }
}

/// The calibration offset from paired readings `(secondary, wall)`, each
/// taken secondary clock first: the smallest gap, since any larger one is
/// delay between the two reads. `None` without readings, or where that gap
/// does not fit in an `i64`.
pub fn calibration_offset(pairs: &Vec<(i64, i64)>) -> (r: Option<i64>)
    ensures
        pairs@.len() == 0 ==> r is None,
        pairs@.len() > 0 ==> match r {
            Some(v) => v == min_gap(pairs@),
            None => !in_i64(min_gap(pairs@)),
        },
{
    if pairs.len() == 0 {
        return None;
    }
    let first = pairs[0];
    let mut best: i128 = first.1 as i128 - first.0 as i128;
    let mut i: usize = 1;
    assert(pairs@.subrange(0, 1).len() == 1);
    while i < pairs.len()
        invariant
            1 <= i <= pairs@.len(),
            best == min_gap(pairs@.subrange(0, i as int)),
        decreases pairs@.len() - i,
    {
        let p = pairs[i];
        let g: i128 = p.1 as i128 - p.0 as i128;
        assert(pairs@.subrange(0, i + 1).drop_last() =~= pairs@.subrange(0, i as int));
        if g < best {
            best = g;
        }
        i = i + 1;
    }
    assert(pairs@.subrange(0, i as int) =~= pairs@);
    if best < i64::MIN as i128 || best > i64::MAX as i128 {
        None
    } else {
        Some(best as i64)
    }
}

proof fn lemma_min_gap_bounds(pairs: Seq<(i64, i64)>)
    requires
        pairs.len() > 0,
    ensures
        exists|j: int| 0 <= j < pairs.len() && min_gap(pairs) == pair_gap(#[trigger] pairs[j]),
        forall|i: int| 0 <= i < pairs.len() ==> min_gap(pairs) <= pair_gap(#[trigger] pairs[i]),
    decreases pairs.len(),
{
    if pairs.len() > 1 {
        let rest = pairs.drop_last();
        lemma_min_gap_bounds(rest);
        let j0 = choose|j: int| 0 <= j < rest.len() && min_gap(rest) == pair_gap(#[trigger] rest[j]);
        assert(rest[j0] == pairs[j0]);
        assert forall|i: int| 0 <= i < pairs.len() implies min_gap(pairs) <= pair_gap(
            #[trigger] pairs[i],
        ) by {
            if i < rest.len() {
                assert(rest[i] == pairs[i]);
            }
        }
        if pair_gap(pairs.last()) < min_gap(rest) {
            assert(min_gap(pairs) == pair_gap(pairs[pairs.len() - 1]));
        } else {
            assert(min_gap(pairs) == pair_gap(pairs[j0]));
        }
    } else {
        assert(min_gap(pairs) == pair_gap(pairs[0]));
    }
}

/// Calibration is exact to within the spread of the gaps: where every paired
/// reading has the wall clock between `k` and `k + eps` (excluded) ahead of the
/// secondary clock, each secondary reading plus the calibrated offset lands
/// within `eps` of its wall reading. A secondary clock at a fixed distance
/// `k` behind is calibrated to `k` exactly.
pub proof fn lemma_calibration_close(pairs: Seq<(i64, i64)>, k: int, eps: int)
    requires
        pairs.len() > 0,
        forall|i: int| 0 <= i < pairs.len() ==> k <= #[trigger] pair_gap(pairs[i]) < k + eps,
    ensures
        k <= min_gap(pairs) < k + eps,
        forall|i: int|
            0 <= i < pairs.len() ==> -eps < (#[trigger] pairs[i]).0 + min_gap(pairs) - pairs[i].1
                < eps,
        eps == 1 ==> min_gap(pairs) == k,
{
    lemma_min_gap_bounds(pairs);
    let j = choose|j: int| 0 <= j < pairs.len() && min_gap(pairs) == pair_gap(#[trigger] pairs[j]);
    assert(k <= pair_gap(pairs[j]) < k + eps);
}

} // verus!
