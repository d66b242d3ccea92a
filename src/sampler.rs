use vstd::prelude::*;

use crate::config::{spec_sample_count, Jitter, ProgramArgs};

verus! {

/// `x` held to the range of an `i64`.
pub open spec fn clamp_i64(x: int) -> int {
    if x > i64::MAX {
        i64::MAX as int
    } else if x < i64::MIN {
        i64::MIN as int
    } else {
        x
    }
}

pub open spec fn max_int(a: int, b: int) -> int {
    if a >= b {
        a
    } else {
        b
    }
}

/// The first `count` results are ordered by timestamp, and none is later than `bound`.
pub open spec fn ordered_upto(results: Seq<Jitter>, count: int, bound: int) -> bool {
    &&& forall|i: int, j: int| 0 <= i < j < count ==> results[i].ts <= results[j].ts
    &&& forall|i: int| 0 <= i < count ==> results[i].ts <= bound
}

fn add_clamped(a: i64, b: i64) -> (r: i64)
    ensures
        r == clamp_i64(a + b),
{
    let s: i128 = a as i128 + b as i128;
    if s > i64::MAX as i128 {
        i64::MAX
    } else if s < i64::MIN as i128 {
        i64::MIN
    } else {
        s as i64
    }
}

fn sub_clamped(a: i64, b: i64) -> (r: i64)
    ensures
        r == clamp_i64(a - b),
{
    let s: i128 = a as i128 - b as i128;
    if s > i64::MAX as i128 {
        i64::MAX
    } else if s < i64::MIN as i128 {
        i64::MIN
    } else {
        s as i64
    }
}

/// The busy-polling measurement of one core, as a state machine over clock
/// readings.
///
/// The driver reads the clock and hands each reading to `poll`, while
/// `is_done` is false. When `poll` reports that it closed a window, the driver
/// reads the clock once more and hands that reading to `resync`, so that the
/// cost of recording the sample is left out of the next window.
pub struct Sampler {
    /// The reading that the next delay is measured from.
    pub previous: i64,
    /// Sampling stops once `previous` reaches this.
    pub deadline: i64,
    /// A window closes at the first reading past this.
    pub next_report: i64,
    pub interval_ns: i64,
    /// The worst delay seen in the open window.
    pub max: i64,
    /// How many windows were recorded in `results`.
    pub count: usize,
    /// Slots for every window; those past `count` keep a zero timestamp.
    pub results: Vec<Jitter>,
    /// The first reading of the run.
    pub start: Ghost<int>,
    /// Each delay seen in the open window, in order.
    pub window: Ghost<Seq<int>>,
    /// For each recorded window, every delay seen in it, in order.
    pub closed: Ghost<Seq<Seq<int>>>,
}

/// The state of a sampler as values.
pub struct SamplerView {
    pub previous: int,
    pub deadline: int,
    pub next_report: int,
    pub interval_ns: int,
    pub max: int,
    pub count: int,
    pub results: Seq<Jitter>,
    pub start: int,
    pub window: Seq<int>,
    pub closed: Seq<Seq<int>>,
}

impl View for Sampler {
    type V = SamplerView;

    open spec fn view(&self) -> SamplerView {
        SamplerView {
            previous: self.previous as int,
            deadline: self.deadline as int,
            next_report: self.next_report as int,
            interval_ns: self.interval_ns as int,
            max: self.max as int,
            count: self.count as int,
            results: self.results@,
            start: self.start@,
            window: self.window@,
            closed: self.closed@,
        }
    }
}

/// The largest of `s`, or `i64::MIN` where `s` is empty.
pub open spec fn seq_max(s: Seq<int>) -> int
    decreases s.len(),
{
    if s.len() == 0 {
        i64::MIN as int
    } else {
        max_int(seq_max(s.drop_last()), s.last())
    }
}

/// A sampler at the start of a run at reading `start`.
pub open spec fn spec_start(program_args: &ProgramArgs, start: int) -> SamplerView {
    SamplerView {
        previous: start,
        deadline: clamp_i64(start + program_args.spec_duration_nanos()),
        next_report: clamp_i64(start + program_args.spec_interval_nanos()),
        interval_ns: program_args.spec_interval_nanos(),
        max: i64::MIN as int,
        count: 0,
        results: Seq::new(
            spec_sample_count(
                program_args.duration_seconds as int,
                program_args.report_interval_millis as int,
            ) as nat,
            |i: int| Jitter { ts: 0, latency: 0 },
        ),
        start,
        window: Seq::empty(),
        closed: Seq::empty(),
    }
}

/// Whether the reading `now` closes the open window.
pub open spec fn closes(v: SamplerView, now: int) -> bool {
    now > v.next_report
}

/// One poll: the delay since the previous reading joins the open window; a
/// reading past the boundary closes the window, recorded in the next free
/// slot if there is one, and moves the boundary on by one interval.
pub open spec fn poll_step(v: SamplerView, now: int) -> SamplerView {
    let delta = clamp_i64(now - v.previous);
    let seen = v.window.push(delta);
    if closes(v, now) {
        let rec = v.count < v.results.len();
        SamplerView {
            previous: now,
            deadline: v.deadline,
            next_report: clamp_i64(v.next_report + v.interval_ns),
            interval_ns: v.interval_ns,
            max: i64::MIN as int,
            count: if rec { v.count + 1 } else { v.count },
            results: if rec {
                v.results.update(v.count, Jitter { ts: now as i64, latency: seq_max(seen) as i64 })
            } else {
                v.results
            },
            start: v.start,
            window: Seq::empty(),
            closed: if rec { v.closed.push(seen) } else { v.closed },
        }
    } else {
        SamplerView {
            previous: now,
            deadline: v.deadline,
            next_report: v.next_report,
            interval_ns: v.interval_ns,
            max: max_int(v.max, delta),
            count: v.count,
            results: v.results,
            start: v.start,
            window: seen,
            closed: v.closed,
        }
    }
}

/// The reading right after a window closed: the next delay is measured from
/// it, and the delay up to it falls in no window.
pub open spec fn resync_step(v: SamplerView, now: int) -> SamplerView {
    SamplerView { previous: now, ..v }
}

/// The run from state `v` over `readings[i..]`: each reading is polled while
/// the last one is before the deadline, and the one after a reading that
/// closed a window is taken to resync. Gives the final state and the index of
/// the first reading not taken.
pub open spec fn run_from(v: SamplerView, readings: Seq<i64>, i: int) -> (SamplerView, int)
    decreases readings.len() - i,
{
    if i < 0 || i >= readings.len() || v.previous >= v.deadline {
        (v, i)
    } else {
        let v1 = poll_step(v, readings[i] as int);
        if closes(v, readings[i] as int) && i + 1 < readings.len() {
            run_from(resync_step(v1, readings[i + 1] as int), readings, i + 2)
        } else {
            run_from(v1, readings, i + 1)
        }
    }
}

/// The run over a whole trace, started at its first reading.
pub open spec fn spec_run(program_args: &ProgramArgs, readings: Seq<i64>) -> (SamplerView, int) {
    run_from(spec_start(program_args, readings[0] as int), readings, 1)
}

proof fn lemma_seq_max(s: Seq<int>)
    ensures
        forall|i: int| 0 <= i < s.len() ==> s[i] <= seq_max(s),
        s.len() == 0 ==> seq_max(s) == i64::MIN,
    decreases s.len(),
{
    if s.len() > 0 {
        let t = s.drop_last();
        lemma_seq_max(t);
        assert forall|i: int| 0 <= i < s.len() implies s[i] <= seq_max(s) by {
            if i < t.len() {
                assert(s[i] == t[i]);
            }
        }
    }
}

impl Sampler {
    pub open spec fn wf(&self) -> bool {
        &&& 0 < self.interval_ns
        &&& self.count <= self.results@.len()
        &&& self.next_report >= clamp_i64(self.start@ + self.interval_ns)
        &&& self.max == seq_max(self.window@)
        &&& self.closed@.len() == self.count
        &&& forall|k: int| 0 <= k < self.count ==> (#[trigger] self.closed@[k]).len() > 0
        &&& forall|k: int|
            0 <= k < self.count ==> #[trigger] self.results@[k].latency == seq_max(self.closed@[k])
        &&& forall|i: int| 0 <= i < self.count ==> self.results@[i].ts > self.start@
        &&& forall|i: int| self.count <= i < self.results@.len() ==> self.results@[i] == (Jitter {
            ts: 0,
            latency: 0,
        })
    }

    /// The recorded windows, in the order they closed.
    pub open spec fn spec_published(&self) -> Seq<Jitter> {
        self.results@.subrange(0, self.count as int)
    }

    /// Starts a run at the clock reading `start`, with one zeroed slot per
    /// reporting window.
    pub fn new(program_args: &ProgramArgs, start: i64) -> (r: Sampler)
        requires
            program_args.valid(),
        ensures
            r.wf(),
            r.previous == start,
            r.deadline == clamp_i64(start + program_args.spec_duration_nanos()),
            r.next_report == clamp_i64(start + program_args.spec_interval_nanos()),
            r.interval_ns == program_args.spec_interval_nanos(),
            r.max == i64::MIN,
            r.count == 0,
            r.results@.len() == spec_sample_count(
                program_args.duration_seconds as int,
                program_args.report_interval_millis as int,
            ),
            r.start@ == start,
            r.window@ == Seq::<int>::empty(),
            r@ == spec_start(program_args, start as int),
            ordered_upto(r.results@, 0, start as int),
    {
        let n = program_args.sample_count();
        let interval_ns = program_args.interval_nanos();
        let results = vec![Jitter { ts: 0, latency: 0 }; n];
        let r = Sampler {
            previous: start,
            deadline: add_clamped(start, program_args.duration_nanos()),
            next_report: add_clamped(start, interval_ns),
            interval_ns,
            max: i64::MIN,
            count: 0,
            results,
            start: Ghost(start as int),
            window: Ghost(Seq::empty()),
            closed: Ghost(Seq::empty()),
        };
        assert(r@.results =~= spec_start(program_args, start as int).results);
        r
    }

    /// The run is over once the last reading reached the deadline.
    pub fn is_done(&self) -> (r: bool)
        ensures
            r == (self.previous >= self.deadline),
    {
        self.previous >= self.deadline
    }

    /// Takes one clock reading: measures its delay from the previous one and,
    /// when the reading is past the window boundary, closes the window.
    ///
    /// A closed window is recorded in the next free slot with the worst delay
    /// of the window, this one included; where no slot is left, as after a
    /// last partial window, it is dropped. The boundary then moves on by one
    /// interval and the worst delay starts over. Returns whether a window
    /// closed.
    pub fn poll(&mut self, now: i64) -> (closed: bool)
        requires
            old(self).wf(),
        ensures
            final(self).wf(),
            final(self)@ == poll_step(old(self)@, now as int),
            closed == (now > old(self).next_report),
            final(self).previous == now,
            final(self).deadline == old(self).deadline,
            final(self).interval_ns == old(self).interval_ns,
            final(self).start == old(self).start,
            final(self).results@.len() == old(self).results@.len(),
            ({
                let delta = clamp_i64(now - old(self).previous);
                let worst = max_int(old(self).max as int, delta);
                if closed {
                    &&& final(self).max == i64::MIN
                    &&& final(self).window@ == Seq::<int>::empty()
                    &&& final(self).next_report == clamp_i64(
                        old(self).next_report + old(self).interval_ns,
                    )
                    &&& if old(self).count < old(self).results@.len() {
                        &&& final(self).count == old(self).count + 1
                        &&& final(self).results@ == old(self).results@.update(
                            old(self).count as int,
                            Jitter { ts: now, latency: worst as i64 },
                        )
                    } else {
                        &&& final(self).count == old(self).count
                        &&& final(self).results@ == old(self).results@
                    }
                } else {
                    &&& final(self).max == worst
                    &&& final(self).window@ == old(self).window@.push(delta)
                    &&& final(self).next_report == old(self).next_report
                    &&& final(self).count == old(self).count
                    &&& final(self).results@ == old(self).results@
                }
            }),
            // the recorded worst delay bounds every delay of its window
            closed && old(self).count < old(self).results@.len() ==> {
                let rec = final(self).results@[old(self).count as int];
                &&& rec.latency >= clamp_i64(now - old(self).previous)
                &&& forall|i: int|
                    0 <= i < old(self).window@.len() ==> rec.latency >= old(self).window@[i]
            },
            // readings that never go back keep the recorded windows in order
            ordered_upto(old(self).results@, old(self).count as int, old(self).previous as int)
                && now >= old(self).previous ==> ordered_upto(
                final(self).results@,
                final(self).count as int,
                now as int,
            ),
    {
        let delta = sub_clamped(now, self.previous);
        let ghost seen = self.window@.push(delta as int);
        proof {
            assert(seen.drop_last() =~= self.window@);
            lemma_seq_max(seen);
            lemma_seq_max(self.window@);
        }
        if delta > self.max {
            self.max = delta;
        }
        let closed = now > self.next_report;
        if closed {
            if self.count < self.results.len() {
                let rec = Jitter { ts: now, latency: self.max };
                self.results.set(self.count, rec);
                self.count = self.count + 1;
                self.closed = Ghost(self.closed@.push(seen));
            }
            self.max = i64::MIN;
            self.next_report = add_clamped(self.next_report, self.interval_ns);
            self.window = Ghost(Seq::empty());
        } else {
            self.window = Ghost(self.window@.push(delta as int));
        }
        self.previous = now;
        closed
    }

    /// Takes the reading made right after a window closed: the next delay is
    /// measured from it.
    pub fn resync(&mut self, now: i64) -> (r: ())
        requires
            old(self).wf(),
        ensures
            final(self).wf(),
            final(self)@ == resync_step(old(self)@, now as int),
            final(self).previous == now,
            final(self).deadline == old(self).deadline,
            final(self).next_report == old(self).next_report,
            final(self).interval_ns == old(self).interval_ns,
            final(self).max == old(self).max,
            final(self).count == old(self).count,
            final(self).results@ == old(self).results@,
            final(self).start == old(self).start,
            final(self).window == old(self).window,
            ordered_upto(old(self).results@, old(self).count as int, old(self).previous as int)
                && now >= old(self).previous ==> ordered_upto(
                final(self).results@,
                final(self).count as int,
                now as int,
            ),
    {
        self.previous = now;
    }

    /// The recorded windows, without the slots that no window reached.
    pub fn published(&self) -> (r: Vec<Jitter>)
        requires
            self.wf(),
        ensures
            r@ == self.spec_published(),
    {
        let mut r: Vec<Jitter> = Vec::new();
        let mut i: usize = 0;
        while i < self.count
            invariant
                self.wf(),
                i <= self.count,
                r@ == self.results@.subrange(0, i as int),
            decreases self.count - i,
        {
            r.push(self.results[i]);
            i = i + 1;
            assert(r@ =~= self.results@.subrange(0, i as int));
        }
        r
    }
}

/// The readings never go back.
pub open spec fn non_decreasing(readings: Seq<i64>) -> bool {
    forall|i: int, j: int| 0 <= i < j < readings.len() ==> readings[i] <= readings[j]
}

/// Each reading is later than the one before.
pub open spec fn strictly_increasing(readings: Seq<i64>) -> bool {
    forall|i: int, j: int| 0 <= i < j < readings.len() ==> readings[i] < readings[j]
}

/// The first `count` results have strictly increasing timestamps.
pub open spec fn strictly_ordered(results: Seq<Jitter>, count: int) -> bool {
    forall|i: int, j: int| 0 <= i < j < count ==> results[i].ts < results[j].ts
}

/// A trace on which no window can be missed: the run divides into whole
/// windows, the clock moves forward by less than half a window per reading,
/// no reading falls exactly on the deadline, and the last boundary fits in
/// an `i64`.
pub open spec fn steady_trace(program_args: &ProgramArgs, readings: Seq<i64>) -> bool {
    let iv = program_args.spec_interval_nanos();
    let deadline = readings[0] + program_args.spec_duration_nanos();
    &&& readings.len() > 0
    &&& (program_args.duration_seconds * 1000) % (program_args.report_interval_millis as int) == 0
    &&& strictly_increasing(readings)
    &&& forall|i: int, j: int|
        0 <= i && j == i + 1 && j < readings.len() ==> 2 * (#[trigger] readings[j]
            - #[trigger] readings[i]) < iv
    &&& forall|i: int| 0 <= i < readings.len() ==> #[trigger] readings[i] != deadline
    &&& deadline + iv <= i64::MAX
}

proof fn lemma_whole_windows(program_args: &ProgramArgs)
    requires
        program_args.valid(),
        (program_args.duration_seconds * 1000) % (program_args.report_interval_millis as int) == 0,
    ensures
        spec_sample_count(
            program_args.duration_seconds as int,
            program_args.report_interval_millis as int,
        ) * program_args.spec_interval_nanos() == program_args.spec_duration_nanos(),
{
    let d = program_args.duration_seconds * 1000;
    let m = program_args.report_interval_millis as int;
    vstd::arithmetic::div_mod::lemma_fundamental_div_mod(d, m);
    let n = d / m;
    assert(n * (m * 1_000_000) == (n * m) * 1_000_000) by (nonlinear_arith);
}

/// Runs the sampler over a recorded clock trace: the first reading starts
/// the run and the others are taken in order, as `poll` and `resync` ask
/// for them, until the deadline or the end of the trace.
pub fn busy_loop(program_args: &ProgramArgs, readings: &Vec<i64>) -> (r: Sampler)
    requires
        program_args.valid(),
        readings@.len() > 0,
    ensures
        r.wf(),
        r@ == spec_run(program_args, readings@).0,
        // the run ends at the deadline, or where the trace ends
        r.previous >= r.deadline || spec_run(program_args, readings@).1 >= readings@.len(),
        r.start@ == readings@[0],
        r.interval_ns == program_args.spec_interval_nanos(),
        r.deadline == clamp_i64(readings@[0] + program_args.spec_duration_nanos()),
        r.results@.len() == spec_sample_count(
            program_args.duration_seconds as int,
            program_args.report_interval_millis as int,
        ),
        non_decreasing(readings@) ==> ordered_upto(r.results@, r.count as int, r.previous as int),
        non_decreasing(readings@) ==> forall|k: int|
            0 <= k < r.count ==> #[trigger] r.results@[k].latency >= 0,
        strictly_increasing(readings@) ==> strictly_ordered(r.results@, r.count as int),
        // a steady trace that reaches the deadline fills every slot
        steady_trace(program_args, readings@) && r.previous >= r.deadline ==> r.count
            == r.results@.len(),
{
    let mut sampler = Sampler::new(program_args, readings[0]);
    let ghost st = readings@[0] as int;
    let ghost iv = program_args.spec_interval_nanos();
    let ghost n = spec_sample_count(
        program_args.duration_seconds as int,
        program_args.report_interval_millis as int,
    );
    let ghost steady = steady_trace(program_args, readings@);
    proof {
        if steady {
            lemma_whole_windows(program_args);
            assert(n * iv >= 0) by (nonlinear_arith)
                requires
                    n >= 0,
                    iv > 0,
            ;
            assert((0 + 1) * iv == iv) by (nonlinear_arith);
        }
    }
    let mut i: usize = 1;
    while i < readings.len() && !sampler.is_done()
        invariant
            1 <= i <= readings@.len(),
            sampler.wf(),
            run_from(sampler@, readings@, i as int) == spec_run(program_args, readings@),
            sampler.start@ == st == readings@[0],
            sampler.interval_ns == iv == program_args.spec_interval_nanos(),
            sampler.deadline == clamp_i64(readings@[0] + program_args.spec_duration_nanos()),
            sampler.results@.len() == n == spec_sample_count(
                program_args.duration_seconds as int,
                program_args.report_interval_millis as int,
            ),
            sampler.previous == readings@[i - 1],
            steady == steady_trace(program_args, readings@),
            non_decreasing(readings@) ==> ordered_upto(
                sampler.results@,
                sampler.count as int,
                sampler.previous as int,
            ),
            non_decreasing(readings@) ==> forall|k: int|
                0 <= k < sampler.count ==> #[trigger] sampler.results@[k].latency >= 0,
            strictly_increasing(readings@) ==> strictly_ordered(
                sampler.results@,
                sampler.count as int,
            ),
            steady ==> {
                &&& n * iv == program_args.spec_duration_nanos()
                &&& sampler.deadline == st + n * iv
                &&& sampler.next_report == st + (sampler.count + 1) * iv
                &&& sampler.previous <= sampler.next_report
                &&& sampler.count > 0 ==> sampler.previous > st + sampler.count * iv
            },
        decreases readings@.len() - i,
    {
        let ghost v0 = sampler@;
        let ghost c = sampler.count as int;
        let ghost prev = sampler.previous as int;
        let now = readings[i];
        proof {
            if steady {
                assert(c < n) by {
                    if c >= n {
                        assert(c * iv >= n * iv) by (nonlinear_arith)
                            requires
                                c >= n,
                                iv > 0,
                        ;
                    }
                    if n <= 0 {
                        assert(n * iv <= 0) by (nonlinear_arith)
                            requires
                                n <= 0,
                                iv > 0,
                        ;
                    }
                }
                assert((c + 1) * iv + iv == (c + 2) * iv) by (nonlinear_arith);
                assert((c + 2) * iv <= (n + 1) * iv) by (nonlinear_arith)
                    requires
                        c < n,
                        iv > 0,
                ;
                assert((n + 1) * iv == n * iv + iv) by (nonlinear_arith);
                assert(2 * (readings@[i as int] - readings@[i - 1]) < iv);
            }
        }
        let closed = sampler.poll(now);
        i = i + 1;
        if closed && i < readings.len() {
            proof {
                if steady {
                    assert(2 * (readings@[i as int] - readings@[i - 1]) < iv);
                    assert(readings@[i - 1] < readings@[i as int]);
                }
            }
            sampler.resync(readings[i]);
            i = i + 1;
        }
        proof {
            if steady {
                if closed {
                    assert(sampler.count == c + 1);
                } else {
                    assert(readings@[i - 2] < readings@[i - 1]);
                }
            }
        }
    }
    proof {
        if steady && sampler.previous >= sampler.deadline {
            let c = sampler.count as int;
            assert(sampler.previous != st + n * iv);
            assert(c + 1 > n) by {
                if c + 1 <= n {
                    assert((c + 1) * iv <= n * iv) by (nonlinear_arith)
                        requires
                            c + 1 <= n,
                            iv > 0,
                    ;
                }
            }
        }
    }
    sampler
}

/// Each recorded worst delay is the largest delay of its window, so it is at
/// least every delay seen in that window.
pub proof fn lemma_worst_bounds_window(sampler: Sampler, k: int)
    requires
        sampler.wf(),
        0 <= k < sampler.count,
    ensures
        sampler.results@[k].latency == seq_max(sampler.closed@[k]),
        forall|d: int|
            0 <= d < sampler.closed@[k].len() ==> sampler.results@[k].latency
                >= #[trigger] sampler.closed@[k][d],
{
    lemma_seq_max(sampler.closed@[k]);
}

/// A run records no more windows than it has slots for, one per whole
/// reporting window of the configured duration, and every recorded window
/// closed after the run started: on a clock with a non-negative epoch no
/// recorded timestamp is the zero of an unreached slot.
pub proof fn lemma_published_bounds(sampler: Sampler)
    requires
        sampler.wf(),
    ensures
        sampler.spec_published().len() <= sampler.results@.len(),
        forall|i: int|
            0 <= i < sampler.spec_published().len() ==> #[trigger] sampler.spec_published()[i].ts
                > sampler.start@,
        sampler.start@ >= 0 ==> forall|i: int|
            0 <= i < sampler.spec_published().len() ==> #[trigger] sampler.spec_published()[i].ts
                != 0,
{
}

} // verus!
