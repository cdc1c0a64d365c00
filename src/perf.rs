//! Bounded histories of timing and bandwidth samples, and their averages.
use vstd::prelude::*;
use crate::util::get_current_timestamp_ms;

verus! {

/// The history after a sample is added to a buffer bounded by `max`: when
/// it is full, its oldest sample goes first.
pub open spec fn with_sample(s: Seq<u64>, x: u64, max: nat) -> Seq<u64> {
    if s.len() >= max && s.len() > 0 { s.drop_first().push(x) } else { s.push(x) }
}

pub open spec fn sum_of(s: Seq<u64>) -> nat
    decreases s.len(),
{
    if s.len() == 0 { 0 } else { sum_of(s.drop_last()) + s.last() as nat }
}

/// The mean of the samples rounded down, zero for none.
pub open spec fn mean_of(s: Seq<u64>) -> nat {
    if s.len() == 0 { 0 } else { sum_of(s) / s.len() }
}

fn push_bounded(v: &mut Vec<u64>, x: u64, max: usize)
    ensures
        final(v)@ == with_sample(old(v)@, x, max as nat),
{
    if v.len() >= max && v.len() > 0 {
        v.remove(0);
        proof {
            assert(v@ =~= old(v)@.drop_first());
        }
    }
    v.push(x);
}

fn mean(v: &Vec<u64>) -> (r: u64)
    ensures
        r == mean_of(v@),
{
    if v.len() == 0 {
        return 0;
    }
    let mut sum: u128 = 0;
    let mut i: usize = 0;
    while i < v.len()
        invariant
            i <= v@.len(),
            sum == sum_of(v@.subrange(0, i as int)),
            sum <= i * 0xFFFF_FFFF_FFFF_FFFF,
        decreases v@.len() - i,
    {
        proof {
            assert(v@.subrange(0, i + 1).drop_last() =~= v@.subrange(0, i as int));
            assert((i + 1) * 0xFFFF_FFFF_FFFF_FFFF == i * 0xFFFF_FFFF_FFFF_FFFF + 0xFFFF_FFFF_FFFF_FFFF) by (nonlinear_arith);
            assert(i * 0xFFFF_FFFF_FFFF_FFFF <= 0xFFFF_FFFF_FFFF_FFFF * 0xFFFF_FFFF_FFFF_FFFF) by (nonlinear_arith)
                requires i <= 0xFFFF_FFFF_FFFF_FFFF;
        }
        sum = sum + v[i] as u128;
        i = i + 1;
    }
    proof {
        assert(v@.subrange(0, i as int) =~= v@);
        let n = v@.len() as int;
        let t = sum as int;
        assert(t / n <= 0xFFFF_FFFF_FFFF_FFFF) by (nonlinear_arith)
            requires n >= 1, 0 <= t <= n * 0xFFFF_FFFF_FFFF_FFFF;
    }
    (sum / (v.len() as u128)) as u64
}

pub struct PerformanceMonitor {
    frame_times: Vec<u64>,
    encode_times: Vec<u64>,
    network_latencies: Vec<u64>,
    bandwidth_samples: Vec<u64>,
    last_frame_time: Option<u64>,
    max_samples: usize,
}

impl PerformanceMonitor {
    /// Milliseconds between consecutive frames.
    pub closed spec fn frame_history(&self) -> Seq<u64> {
        self.frame_times@
    }

    /// Milliseconds spent encoding each frame.
    pub closed spec fn encode_history(&self) -> Seq<u64> {
        self.encode_times@
    }

    /// Network round-trip times, in milliseconds.
    pub closed spec fn latency_history(&self) -> Seq<u64> {
        self.network_latencies@
    }

    /// Bytes sent per second.
    pub closed spec fn bandwidth_history(&self) -> Seq<u64> {
        self.bandwidth_samples@
    }

    /// When the last frame was recorded, in milliseconds.
    pub closed spec fn last_frame(&self) -> Option<u64> {
        self.last_frame_time
    }

    pub closed spec fn bound(&self) -> nat {
        self.max_samples as nat
    }

    pub fn new(max_samples: usize) -> (r: Self)
        ensures
            r.bound() == max_samples,
            r.frame_history().len() == 0,
            r.encode_history().len() == 0,
            r.latency_history().len() == 0,
            r.bandwidth_history().len() == 0,
            r.last_frame() is None,
    {
        PerformanceMonitor {
            frame_times: Vec::new(),
            encode_times: Vec::new(),
            network_latencies: Vec::new(),
            bandwidth_samples: Vec::new(),
            last_frame_time: None,
            max_samples,
        }
    }

    /// Records a frame shown at `now` (ms): the time since the previous
    /// frame joins the frame history.
    pub fn record_frame_at(&mut self, now: u64)
        ensures
            final(self).bound() == old(self).bound(),
            final(self).last_frame() == Some(now),
            final(self).frame_history() == match old(self).last_frame() {
                Some(t) => with_sample(old(self).frame_history(), if now >= t { (now - t) as u64 } else { 0 }, old(self).bound()),
                None => old(self).frame_history(),
            },
            final(self).encode_history() == old(self).encode_history(),
            final(self).latency_history() == old(self).latency_history(),
            final(self).bandwidth_history() == old(self).bandwidth_history(),
    {
        match self.last_frame_time {
            Some(t) => {
                let dt = if now >= t { now - t } else { 0 };
                push_bounded(&mut self.frame_times, dt, self.max_samples);
            },
            None => {},
        }
        self.last_frame_time = Some(now);
    }

    /// Records a frame shown now, by the wall clock.
    pub fn record_frame(&mut self)
        ensures
            final(self).bound() == old(self).bound(),
            final(self).last_frame() is Some,
            final(self).encode_history() == old(self).encode_history(),
            final(self).latency_history() == old(self).latency_history(),
            final(self).bandwidth_history() == old(self).bandwidth_history(),
    {
        let now = get_current_timestamp_ms();
        self.record_frame_at(now);
    }

    pub fn record_encode_time(&mut self, duration_ms: u64)
        ensures
            final(self).bound() == old(self).bound(),
            final(self).encode_history() == with_sample(old(self).encode_history(), duration_ms, old(self).bound()),
            final(self).frame_history() == old(self).frame_history(),
            final(self).latency_history() == old(self).latency_history(),
            final(self).bandwidth_history() == old(self).bandwidth_history(),
            final(self).last_frame() == old(self).last_frame(),
    {
        push_bounded(&mut self.encode_times, duration_ms, self.max_samples);
    }

    pub fn record_network_latency(&mut self, duration_ms: u64)
        ensures
            final(self).bound() == old(self).bound(),
            final(self).latency_history() == with_sample(old(self).latency_history(), duration_ms, old(self).bound()),
            final(self).frame_history() == old(self).frame_history(),
            final(self).encode_history() == old(self).encode_history(),
            final(self).bandwidth_history() == old(self).bandwidth_history(),
            final(self).last_frame() == old(self).last_frame(),
    {
        push_bounded(&mut self.network_latencies, duration_ms, self.max_samples);
    }

    pub fn record_bandwidth(&mut self, bytes: u64)
        ensures
            final(self).bound() == old(self).bound(),
            final(self).bandwidth_history() == with_sample(old(self).bandwidth_history(), bytes, old(self).bound()),
            final(self).frame_history() == old(self).frame_history(),
            final(self).encode_history() == old(self).encode_history(),
            final(self).latency_history() == old(self).latency_history(),
            final(self).last_frame() == old(self).last_frame(),
    {
        push_bounded(&mut self.bandwidth_samples, bytes, self.max_samples);
    }

    pub fn average_frame_time_ms(&self) -> (r: u64)
        ensures
            r == mean_of(self.frame_history()),
    {
        mean(&self.frame_times)
    }

    pub fn average_encode_time_ms(&self) -> (r: u64)
        ensures
            r == mean_of(self.encode_history()),
    {
        mean(&self.encode_times)
    }

    pub fn average_network_latency_ms(&self) -> (r: u64)
        ensures
            r == mean_of(self.latency_history()),
    {
        mean(&self.network_latencies)
    }

    /// Frames per second from the mean frame time; zero without samples or
    /// with a mean of zero.
    pub fn frames_per_second(&self) -> (r: u64)
        ensures
            r == (if mean_of(self.frame_history()) == 0 { 0nat } else { 1000nat / mean_of(self.frame_history()) }),
    {
        let m = mean(&self.frame_times);
        if m == 0 { 0 } else { 1000 / m }
    }

    pub fn reset(&mut self)
        ensures
            final(self).bound() == old(self).bound(),
            final(self).frame_history().len() == 0,
            final(self).encode_history().len() == 0,
            final(self).latency_history().len() == 0,
            final(self).bandwidth_history().len() == 0,
            final(self).last_frame() is None,
    {
        self.frame_times = Vec::new();
        self.encode_times = Vec::new();
        self.network_latencies = Vec::new();
        self.bandwidth_samples = Vec::new();
        self.last_frame_time = None;
    }
}

/// Runs an operation and returns its result; how long it took, by the wall
/// clock, is measured around it.
pub fn log_performance<F: FnOnce() -> R, R>(operation_name: &str, f: F) -> (r: R)
    requires
        f.requires(()),
    ensures
        f.ensures((), r),
{
    let timer = PerformanceTimer::start(operation_name);
    let result = f();
    let _elapsed = timer.stop();
    result
}

/// Measures how long an operation takes, by the wall clock.
pub struct PerformanceTimer {
    pub name: String,
    /// When the timer started, in milliseconds.
    pub start_time: u64,
}

impl PerformanceTimer {
    pub fn start(name: &str) -> (r: Self)
        ensures
            r.name@ == name@,
    {
        PerformanceTimer { name: crate::util::owned(name), start_time: get_current_timestamp_ms() }
    }

    /// Milliseconds from the start to `now`; zero when the clock went back.
    pub fn stop_at(self, now: u64) -> (r: u64)
        ensures
            r == (if now >= self.start_time { now - self.start_time } else { 0 }),
    {
        if now >= self.start_time { now - self.start_time } else { 0 }
    }

    /// Milliseconds since the start, by the wall clock.
    pub fn stop(self) -> (r: u64) {
        let now = get_current_timestamp_ms();
        self.stop_at(now)
    }
}

} // verus!
