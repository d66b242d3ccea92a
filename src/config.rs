use vstd::prelude::*;

verus! {

/// Nanoseconds in one second.
pub const NANOS_IN_SEC: i64 = 1_000_000_000;

/// Nanoseconds in one millisecond.
pub const NANOS_IN_MILLI: i64 = 1_000_000;

/// One reporting window's result: the worst poll-to-poll delay (`latency`,
/// nanoseconds) and the clock reading at which the window closed (`ts`).
#[derive(Clone, Copy, Debug, PartialEq, Eq, Structural)]
pub struct Jitter {
    pub ts: i64,
    pub latency: i64,
}

/// The clock that the sampler reads.
#[derive(Clone, Copy, Debug, PartialEq, Eq, Structural)]
pub enum TimeSource {
    /// The system real-time clock, the reference for the others.
    WallClock,
    /// The system monotonic clock, shifted onto the real-time clock's epoch.
    MonotonicClock,
    /// The processor's free-running cycle counter, scaled by its frequency.
    HardwareCounter,
}

/// The configuration of one run, fixed before any sampling starts.
pub struct ProgramArgs {
    pub duration_seconds: i64,
    pub report_interval_millis: i64,
    pub cpus: Vec<u32>,
    pub time_source: TimeSource,
    /// Cycles per second of the hardware counter, when one was given.
    pub tsc_frequency_hz: Option<u64>,
    /// Added to a secondary clock's reading to bring it onto the real-time epoch.
    pub time_offset: i64,
    pub mlock_enabled: bool,
    pub lapic_enabled: bool,
    pub influx_url: String,
    pub influx_db: String,
    pub local_hostname: String,
}

/// Number of reporting windows, and so of result slots, in a run.
pub open spec fn spec_sample_count(duration_seconds: int, report_interval_millis: int) -> int {
    duration_seconds * 1000 / report_interval_millis
}

impl ProgramArgs {
    /// The duration is not negative, the reporting interval is positive, their nanosecond values fit in an `i64`,
    /// and the result slots can be counted in a `usize`.
    pub open spec fn valid(&self) -> bool {
        &&& 0 <= self.duration_seconds
        &&& 0 < self.report_interval_millis
        &&& self.duration_seconds * NANOS_IN_SEC <= i64::MAX
        &&& self.report_interval_millis * NANOS_IN_MILLI <= i64::MAX
        &&& spec_sample_count(self.duration_seconds as int, self.report_interval_millis as int)
            <= usize::MAX
    }

    pub open spec fn spec_duration_nanos(&self) -> int {
        self.duration_seconds * NANOS_IN_SEC
    }

    pub open spec fn spec_interval_nanos(&self) -> int {
        self.report_interval_millis * NANOS_IN_MILLI
    }

    /// Whether the configuration can be run: see `valid`.
    pub fn is_valid(&self) -> (r: bool)
        ensures
            r == self.valid(),
    {
        if self.duration_seconds < 0 || self.report_interval_millis <= 0 {
            return false;
        }
        if self.duration_seconds > i64::MAX / NANOS_IN_SEC || self.report_interval_millis > i64::MAX
            / NANOS_IN_MILLI {
            return false;
        }
        let millis: i128 = self.duration_seconds as i128 * 1000;
        millis / (self.report_interval_millis as i128) <= usize::MAX as i128
    }

    /// `duration_seconds * 1000 / report_interval_millis`, truncated: a last
    /// partial window gets no slot.
    pub fn sample_count(&self) -> (r: usize)
        requires
            self.valid(),
        ensures
            r == spec_sample_count(
                self.duration_seconds as int,
                self.report_interval_millis as int,
            ),
    {
        let millis: i64 = self.duration_seconds * 1000;
        (millis / self.report_interval_millis) as usize
    }

    pub fn duration_nanos(&self) -> (r: i64)
        requires
            self.valid(),
        ensures
            r == self.spec_duration_nanos(),
    {
        self.duration_seconds * NANOS_IN_SEC
    }

    pub fn interval_nanos(&self) -> (r: i64)
        requires
            self.valid(),
        ensures
            r == self.spec_interval_nanos(),
    {
        self.report_interval_millis * NANOS_IN_MILLI
    }
}

impl Default for ProgramArgs {
    fn default() -> (r: ProgramArgs)
        ensures
            r.duration_seconds == 0,
            r.report_interval_millis == 0,
            r.cpus@.len() == 0,
            r.time_source == TimeSource::WallClock,
            r.tsc_frequency_hz.is_none(),
            r.time_offset == 0,
            !r.mlock_enabled,
            r.lapic_enabled,
            r.influx_url@.len() == 0,
            r.influx_db@.len() == 0,
            r.local_hostname@.len() == 0,
    {
        ProgramArgs {
            duration_seconds: 0,
            report_interval_millis: 0,
            cpus: Vec::new(),
            time_source: TimeSource::WallClock,
            tsc_frequency_hz: None,
            time_offset: 0,
            mlock_enabled: false,
            lapic_enabled: true,
            influx_url: String::new(),
            influx_db: String::new(),
            local_hostname: String::new(),
        }
    }
}

} // verus!
