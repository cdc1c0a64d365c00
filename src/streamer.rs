//! The streaming pipeline's decisions: its run state, what a captured frame
//! becomes (encoded, buffered and handed on), the statistics of each
//! one-second window, and adaptive quality. The ticker and the capture are
//! the caller's.
use vstd::prelude::*;
use crate::delta::{RawFrame, Compressor, CompressionType, encoded_frame};
use crate::frame_buffer::{FrameBuffer, FrameRecord};

verus! {

/// How much one adaptive step changes the quality.
pub const QUALITY_STEP: u8 = 5;
/// Adaptive quality never goes below this.
pub const MIN_ADAPTIVE_QUALITY: u8 = 10;
/// Milliseconds between two statistics updates.
pub const STATS_WINDOW_MS: u64 = 1000;

#[derive(Debug, Clone, Copy, PartialEq, Eq, Structural)]
pub enum StreamState {
    Idle,
    Running,
    Stopping,
    Stopped,
}

#[derive(Debug, Clone, Copy, PartialEq, Eq, Structural)]
pub struct StreamingConfig {
    pub target_fps: u32,
    /// 1 to 100; the quality adaptive control returns to.
    pub quality: u8,
    pub compression_type: CompressionType,
    pub adaptive_quality: bool,
    /// The bandwidth cap, in kilobits per second.
    pub max_bandwidth_kbps: u64,
    pub enable_delta_compression: bool,
    pub buffer_size: usize,
}

impl StreamingConfig {
    pub fn default_config() -> (r: Self)
        ensures
            r.target_fps == 30 && r.quality == 75 && r.adaptive_quality && r.enable_delta_compression,
            r.max_bandwidth_kbps == 10_000 && r.buffer_size == 3,
    {
        StreamingConfig {
            target_fps: 30,
            quality: 75,
            compression_type: CompressionType::JPEG,
            adaptive_quality: true,
            max_bandwidth_kbps: 10_000,
            enable_delta_compression: true,
            buffer_size: 3,
        }
    }
}

#[derive(Debug, Clone, Copy, PartialEq, Eq, Structural)]
pub struct StreamingStats {
    pub fps: u64,
    pub bandwidth_kbps: u64,
    pub average_frame_size_bytes: u64,
    pub latency_ms: u64,
    pub dropped_frames: u64,
    pub total_frames: u64,
    pub uptime_seconds: u64,
}

#[derive(Debug)]
pub enum StreamingEvent {
    FrameReady(Vec<u8>),
    QualityAdjusted(u8),
    FrameDropped(String),
    Error(String),
    StatUpdate(StreamingStats),
}

/// The quality after a statistics window measured `bandwidth` kbps: one
/// step down, not below the floor, over the cap; one step up, not above the
/// target, under half the cap; else unchanged.
pub open spec fn adapted_quality(quality: u8, target: u8, bandwidth: u64, cap: u64) -> u8 {
    if bandwidth > cap {
        if quality >= MIN_ADAPTIVE_QUALITY + QUALITY_STEP { (quality - QUALITY_STEP) as u8 }
        else if quality > MIN_ADAPTIVE_QUALITY { MIN_ADAPTIVE_QUALITY }
        else { quality }
    } else if bandwidth * 2 < cap && quality < target {
        if quality + QUALITY_STEP <= target { (quality + QUALITY_STEP) as u8 } else { target }
    } else {
        quality
    }
}

pub fn adapt_quality(quality: u8, target: u8, bandwidth: u64, cap: u64) -> (r: u8)
    ensures
        r == adapted_quality(quality, target, bandwidth, cap),
{
    if bandwidth > cap {
        if quality >= MIN_ADAPTIVE_QUALITY + QUALITY_STEP {
            quality - QUALITY_STEP
        } else if quality > MIN_ADAPTIVE_QUALITY {
            MIN_ADAPTIVE_QUALITY
        } else {
            quality
        }
    } else if bandwidth <= u64::MAX / 2 && bandwidth * 2 < cap && quality < target {
        if quality as u16 + QUALITY_STEP as u16 <= target as u16 { quality + QUALITY_STEP } else { target }
    } else {
        quality
    }
}

/// The statistics of a window of `elapsed` ms in which `frames` frames of
/// `bytes` bytes in all were produced.
pub open spec fn window_stats(frames: u64, bytes: u64, elapsed: u64) -> (u64, u64, u64) {
    (
        if elapsed == 0 { 0 } else { (frames * 1000 / (elapsed as int)) as u64 },
        if elapsed == 0 { 0 } else { (bytes * 8 / (elapsed as int)) as u64 },
        if frames == 0 { 0 } else { bytes / frames },
    )
}

/// The first event after a frame is handed to a running pipeline: the
/// encoded bytes, or an error when the frame does not encode.
pub open spec fn frame_outcome(r: Seq<StreamingEvent>, frame: &RawFrame, base: Option<&RawFrame>, q: u8, now: u64) -> bool {
    &&& r.len() >= 1
    &&& match encoded_frame(frame, base, q, now) {
        Some(bytes) => r[0] matches StreamingEvent::FrameReady(v) && v@ == bytes,
        None => r[0] is Error,
    }
}

/// A placeholder for a frame that could not be captured: red rises from
/// left to right, green from top to bottom, blue is half, alpha full.
pub open spec fn gradient_pixel(w: nat, h: nat, x: nat, y: nat) -> Seq<u8> {
    seq![(x * 255 / w) as u8, (y * 255 / h) as u8, 128u8, 255u8]
}

pub open spec fn gradient_rows(w: nat, h: nat, rows: nat) -> Seq<u8>
    decreases rows,
{
    if rows == 0 { Seq::empty() } else { gradient_rows(w, h, (rows - 1) as nat) + gradient_row(w, h, (rows - 1) as nat, w) }
}

pub open spec fn gradient_row(w: nat, h: nat, y: nat, n: nat) -> Seq<u8>
    decreases n,
{
    if n == 0 { Seq::empty() } else { gradient_row(w, h, y, (n - 1) as nat) + gradient_pixel(w, h, (n - 1) as nat, y) }
}

proof fn lemma_gradient_len(w: nat, h: nat, rows: nat)
    ensures
        gradient_rows(w, h, rows).len() == w * rows * 4,
    decreases rows,
{
    if rows > 0 {
        lemma_gradient_len(w, h, (rows - 1) as nat);
        lemma_gradient_row_len(w, h, (rows - 1) as nat, w);
        assert(w * rows * 4 == w * (rows - 1) * 4 + w * 4) by (nonlinear_arith);
    } else {
        assert(w * rows * 4 == 0) by (nonlinear_arith) requires rows == 0;
    }
}

proof fn lemma_gradient_row_len(w: nat, h: nat, y: nat, n: nat)
    ensures
        gradient_row(w, h, y, n).len() == n * 4,
    decreases n,
{
    if n > 0 {
        lemma_gradient_row_len(w, h, y, (n - 1) as nat);
    }
}

/// The placeholder frame of the given size.
pub fn gradient_placeholder(width: u32, height: u32) -> (r: RawFrame)
    requires
        width as nat * height as nat * 4 <= usize::MAX,
    ensures
        r.width == width,
        r.height == height,
        r.data@ == gradient_rows(width as nat, height as nat, height as nat),
        r.wf(),
{
    let mut data: Vec<u8> = Vec::new();
    let mut y: u32 = 0;
    while y < height
        invariant
            y <= height,
            data@ == gradient_rows(width as nat, height as nat, y as nat),
        decreases height - y,
    {
        let ghost start = data@;
        let mut x: u32 = 0;
        while x < width
            invariant
                x <= width,
                y < height,
                data@ == start + gradient_row(width as nat, height as nat, y as nat, x as nat),
            decreases width - x,
        {
            proof {
                assert((x as nat) * 255 / (width as nat) < 256) by (nonlinear_arith)
                    requires x < width;
                assert((y as nat) * 255 / (height as nat) < 256) by (nonlinear_arith)
                    requires y < height;
            }
            let r = ((x as u64) * 255 / (width as u64)) as u8;
            let g = ((y as u64) * 255 / (height as u64)) as u8;
            data.push(r);
            data.push(g);
            data.push(128);
            data.push(255);
            x = x + 1;
            proof {
                assert(data@ =~= start + gradient_row(width as nat, height as nat, y as nat, x as nat));
            }
        }
        y = y + 1;
        proof {
            assert(data@ =~= gradient_rows(width as nat, height as nat, y as nat));
        }
    }
    proof {
        lemma_gradient_len(width as nat, height as nat, height as nat);
    }
    RawFrame { width, height, data }
}

fn copy_bytes(v: &Vec<u8>) -> (r: Vec<u8>)
    ensures
        r@ == v@,
{
    let r = v.clone();
    proof {
        assert(r@ =~= v@);
    }
    r
}

pub struct StreamingManager {
    config: StreamingConfig,
    state: StreamState,
    codec: Compressor,
    frame_buffer: FrameBuffer,
    previous: Option<RawFrame>,
    quality: u8,
    window_start: u64,
    window_frames: u64,
    window_bytes: u64,
    start_time: Option<u64>,
    total_frames: u64,
    dropped_frames: u64,
    stats: StreamingStats,
}

impl StreamingManager {
    pub closed spec fn run_state(&self) -> StreamState {
        self.state
    }

    pub closed spec fn current_quality(&self) -> u8 {
        self.quality
    }

    pub closed spec fn settings(&self) -> StreamingConfig {
        self.config
    }

    /// Whether the pipeline holds a previous frame to compute deltas against.
    pub closed spec fn has_previous(&self) -> bool {
        self.previous is Some
    }

    /// The encoded frames held for sending, oldest first.
    pub closed spec fn buffered(&self) -> Seq<FrameRecord> {
        self.frame_buffer@
    }

    /// The frame a new frame is compared against: the previous one, when
    /// delta compression is on.
    pub closed spec fn delta_base(&self) -> Option<&RawFrame> {
        if self.config.enable_delta_compression {
            match &self.previous {
                Some(p) => Some(p),
                None => None,
            }
        } else {
            None
        }
    }

    pub closed spec fn wf(&self) -> bool {
        &&& self.frame_buffer.inv()
        &&& self.frame_buffer.capacity() == self.config.buffer_size
        &&& self.codec.current_quality() == self.quality
        &&& (self.previous matches Some(p) ==> p.wf())
        &&& (self.state == StreamState::Stopped ==> self.previous is None && self.start_time is None)
    }

    /// The statistics of the last closed window.
    pub closed spec fn stats_view(&self) -> StreamingStats {
        self.stats
    }

    /// The frame the next delta is computed against, whatever the setting.
    pub closed spec fn previous_frame(&self) -> Option<RawFrame> {
        self.previous
    }

    /// Whether the buffer's accounting has room for a frame of `n` bytes.
    pub closed spec fn buffer_fits(&self, n: nat) -> bool {
        self.frame_buffer.frames_processed() < u64::MAX && self.frame_buffer.byte_count() + n <= usize::MAX
    }

    /// The size a capture-failure placeholder takes: that of the previous
    /// frame, else 800 × 600.
    pub closed spec fn fallback_size(&self) -> (u32, u32) {
        match self.previous {
            Some(p) => (p.width, p.height),
            None => (800u32, 600u32),
        }
    }

    /// A stopped pipeline with its buffer empty.
    pub fn new(config: StreamingConfig) -> (r: Self)
        ensures
            r.wf(),
            r.run_state() == StreamState::Idle,
            r.current_quality() == config.quality,
            r.settings() == config,
            !r.has_previous(),
    {
        StreamingManager {
            config,
            state: StreamState::Idle,
            codec: Compressor::new(config.quality, config.compression_type, config.adaptive_quality),
            frame_buffer: FrameBuffer::new(config.buffer_size),
            previous: None,
            quality: config.quality,
            window_start: 0,
            window_frames: 0,
            window_bytes: 0,
            start_time: None,
            total_frames: 0,
            dropped_frames: 0,
            stats: StreamingStats {
                fps: 0,
                bandwidth_kbps: 0,
                average_frame_size_bytes: 0,
                latency_ms: 0,
                dropped_frames: 0,
                total_frames: 0,
                uptime_seconds: 0,
            },
        }
    }

    /// Starts the pipeline at `now` (ms); true when it was not running, that
    /// is when the ticker is to be started. Starting a running pipeline
    /// changes nothing.
    pub fn start_streaming(&mut self, now: u64) -> (r: bool)
        requires
            old(self).wf(),
        ensures
            final(self).wf(),
            r == (old(self).run_state() != StreamState::Running),
            final(self).run_state() == StreamState::Running,
            final(self).current_quality() == old(self).current_quality(),
            final(self).settings() == old(self).settings(),
            !r ==> *final(self) == *old(self),
    {
        if self.state == StreamState::Running {
            return false;
        }
        self.state = StreamState::Running;
        self.start_time = Some(now);
        self.window_start = now;
        self.window_frames = 0;
        self.window_bytes = 0;
        true
    }

    /// Stops the pipeline and lets go of the previous frame; true when it
    /// was running. Stopping a pipeline that is not running changes nothing
    /// but its state, which is then stopped.
    pub fn stop_streaming(&mut self) -> (r: bool)
        requires
            old(self).wf(),
        ensures
            final(self).wf(),
            r == (old(self).run_state() == StreamState::Running),
            final(self).run_state() == StreamState::Stopped,
            !final(self).has_previous(),
            final(self).current_quality() == old(self).current_quality(),
            final(self).settings() == old(self).settings(),
            final(self).stats_view() == old(self).stats_view(),
            final(self).buffered() == old(self).buffered(),
            old(self).run_state() == StreamState::Stopped ==> *final(self) == *old(self),
    {
        let was = self.state == StreamState::Running;
        self.state = StreamState::Stopped;
        self.previous = None;
        self.start_time = None;
        was
    }

    pub fn is_streaming(&self) -> (r: bool)
        ensures
            r == (self.run_state() == StreamState::Running),
    {
        self.state == StreamState::Running
    }

    /// Milliseconds between two ticks.
    pub fn frame_interval_ms(&self) -> (r: u64)
        ensures
            r == 1000int / (if self.settings().target_fps == 0 { 1int } else { self.settings().target_fps as int }),
    {
        let fps = if self.config.target_fps == 0 { 1 } else { self.config.target_fps as u64 };
        1000 / fps
    }

    /// Sets the quality; only a running pipeline accepts it, and only 1..=100.
    pub fn adjust_quality(&mut self, new_quality: u8) -> (r: Option<StreamingEvent>)
        requires
            old(self).wf(),
        ensures
            final(self).wf(),
            final(self).run_state() == old(self).run_state(),
            final(self).settings() == old(self).settings(),
            final(self).has_previous() == old(self).has_previous(),
            (old(self).run_state() == StreamState::Running && 1 <= new_quality <= 100) ==> (
                final(self).current_quality() == new_quality && r == Some(StreamingEvent::QualityAdjusted(new_quality))),
            !(old(self).run_state() == StreamState::Running && 1 <= new_quality <= 100) ==> (
                final(self).current_quality() == old(self).current_quality() && r is None),
    {
        if self.state != StreamState::Running || new_quality == 0 || new_quality > 100 {
            return None;
        }
        let _ = self.codec.set_quality(new_quality);
        self.quality = new_quality;
        Some(StreamingEvent::QualityAdjusted(new_quality))
    }

    /// Handles a frame captured at `now` (ms). A pipeline that is not running
    /// drops it. A running one encodes it against the previous frame (when
    /// delta compression is on), buffers and hands on the bytes, keeps the
    /// frame for the next delta, and at the end of each statistics window
    /// reports the window and, when adaptive, adjusts the quality.
    pub fn on_frame(&mut self, frame: RawFrame, now: u64) -> (r: Vec<StreamingEvent>)
        requires
            old(self).wf(),
            frame.wf(),
        ensures
            final(self).wf(),
            final(self).run_state() == old(self).run_state(),
            final(self).settings() == old(self).settings(),
            old(self).run_state() != StreamState::Running ==> r@.len() == 0
                && final(self).current_quality() == old(self).current_quality(),
            old(self).run_state() == StreamState::Running ==> frame_outcome(r@, &frame, old(self).delta_base(),
                old(self).current_quality(), now),
            old(self).run_state() == StreamState::Running ==> match encoded_frame(&frame, old(self).delta_base(),
                old(self).current_quality(), now) {
                Some(bytes) => {
                    &&& final(self).previous_frame() == Some(frame)
                    &&& (old(self).settings().buffer_size > 0 && old(self).buffer_fits(bytes.len()) ==> {
                        &&& final(self).buffered().len() > 0
                        &&& final(self).buffered().last().data == bytes
                        &&& final(self).buffered().last().timestamp == now
                    })
                },
                None => final(self).previous_frame() == old(self).previous_frame()
                    && final(self).buffered() == old(self).buffered(),
            },
    {
        let mut events: Vec<StreamingEvent> = Vec::new();
        if self.state != StreamState::Running {
            return events;
        }
        let encoded = if self.config.enable_delta_compression {
            match &self.previous {
                Some(p) => self.codec.compress_frame_delta(&frame, Some(p), now),
                None => self.codec.compress_frame_delta(&frame, None, now),
            }
        } else {
            self.codec.compress_frame_delta(&frame, None, now)
        };
        match encoded {
            Ok(bytes) => {
                let size = bytes.len();
                let stats = self.frame_buffer.get_buffer_stats();
                let fits = stats.total_frames_processed < u64::MAX && stats.total_bytes <= usize::MAX - size;
                let copy = copy_bytes(&bytes);
                events.push(StreamingEvent::FrameReady(bytes));
                proof {
                    assert(stats.total_frames_processed == self.frame_buffer.frames_processed());
                }
                if fits {
                    let full = self.frame_buffer.get_buffer_size() >= stats.max_frames && stats.max_frames > 0;
                    self.frame_buffer.add_frame(copy, now);
                    if full {
                        self.dropped_frames = if self.dropped_frames < u64::MAX { self.dropped_frames + 1 } else { u64::MAX };
                        events.push(StreamingEvent::FrameDropped(crate::util::owned("buffer full: oldest frame evicted")));
                    }
                } else {
                    self.dropped_frames = if self.dropped_frames < u64::MAX { self.dropped_frames + 1 } else { u64::MAX };
                    events.push(StreamingEvent::FrameDropped(crate::util::owned("buffer accounting full")));
                }
                self.previous = Some(frame);
                self.total_frames = if self.total_frames < u64::MAX { self.total_frames + 1 } else { u64::MAX };
                self.window_frames = if self.window_frames < u64::MAX { self.window_frames + 1 } else { u64::MAX };
                self.window_bytes = if self.window_bytes <= u64::MAX - size as u64 { self.window_bytes + size as u64 } else { u64::MAX };
            },
            Err(_) => {
                events.push(StreamingEvent::Error(crate::util::owned("frame encoding failed")));
            },
        }
        let ghost first = events@[0];
        if now >= self.window_start && now - self.window_start >= STATS_WINDOW_MS {
            self.close_window(now, &mut events);
        }
        proof {
            assert(events@[0] == first);
        }
        events
    }

    /// A capture failed at `now`: a gradient placeholder at the last known
    /// size (800 × 600 before any frame) goes through the pipeline instead,
    /// so that it does not stall.
    pub fn on_capture_failed(&mut self, now: u64) -> (r: Vec<StreamingEvent>)
        requires
            old(self).wf(),
        ensures
            final(self).wf(),
            final(self).run_state() == old(self).run_state(),
            final(self).settings() == old(self).settings(),
            old(self).run_state() != StreamState::Running ==> r@.len() == 0,
            old(self).run_state() == StreamState::Running ==> exists|p: RawFrame| {
                &&& p.width == old(self).fallback_size().0
                &&& p.height == old(self).fallback_size().1
                &&& p.data@ == gradient_rows(p.width as nat, p.height as nat, p.height as nat)
                &&& frame_outcome(r@, &p, old(self).delta_base(), old(self).current_quality(), now)
            },
    {
        let (w, h): (u32, u32) = match &self.previous {
            Some(p) => {
                let _len = p.data.len();
                (p.width, p.height)
            },
            None => (800, 600),
        };
        let placeholder = gradient_placeholder(w, h);
        let ghost p = placeholder;
        let r = self.on_frame(placeholder, now);
        proof {
            if old(self).run_state() == StreamState::Running {
                assert(frame_outcome(r@, &p, old(self).delta_base(), old(self).current_quality(), now));
            }
        }
        r
    }

    /// Reports the statistics window that ends at `now` and adapts the quality.
    fn close_window(&mut self, now: u64, events: &mut Vec<StreamingEvent>)
        requires
            old(self).wf(),
            now >= old(self).window_start,
        ensures
            final(self).wf(),
            final(self).run_state() == old(self).run_state(),
            final(self).settings() == old(self).settings(),
            final(self).has_previous() == old(self).has_previous(),
            final(self).delta_base() == old(self).delta_base(),
            final(self).previous == old(self).previous,
            final(self).frame_buffer == old(self).frame_buffer,
            final(events)@.len() >= old(events)@.len(),
            forall|i: int| 0 <= i < old(events)@.len() ==> final(events)@[i] == old(events)@[i],
    {
        let elapsed = now - self.window_start;
        let fps = if elapsed == 0 { 0 } else { ((self.window_frames as u128) * 1000 / (elapsed as u128)) as u64 };
        let bandwidth = if elapsed == 0 { 0 } else { ((self.window_bytes as u128) * 8 / (elapsed as u128)) as u64 };
        let average = if self.window_frames == 0 { 0 } else { self.window_bytes / self.window_frames };
        let uptime = match self.start_time {
            Some(t) => if now >= t { (now - t) / 1000 } else { 0 },
            None => 0,
        };
        self.stats = StreamingStats {
            fps,
            bandwidth_kbps: bandwidth,
            average_frame_size_bytes: average,
            latency_ms: 0,
            dropped_frames: self.dropped_frames,
            total_frames: self.total_frames,
            uptime_seconds: uptime,
        };
        events.push(StreamingEvent::StatUpdate(self.stats));
        if self.config.adaptive_quality {
            let q = adapt_quality(self.quality, self.config.quality, bandwidth, self.config.max_bandwidth_kbps);
            if q != self.quality && q >= 1 && q <= 100 {
                let _ = self.codec.set_quality(q);
                self.quality = q;
                events.push(StreamingEvent::QualityAdjusted(q));
            }
        }
        self.window_start = now;
        self.window_frames = 0;
        self.window_bytes = 0;
    }

    pub fn get_stats(&self) -> (r: StreamingStats)
        ensures
            r == self.stats_view(),
    {
        self.stats
    }

    pub fn get_latest_frame(&self) -> (r: Option<Vec<u8>>)
        ensures
            self.buffered().len() == 0 ==> r is None,
            self.buffered().len() > 0 ==> r is Some && r->Some_0@ == self.buffered().last().data,
    {
        self.frame_buffer.get_latest_frame()
    }

    pub fn get_frame_buffer_size(&self) -> (r: usize)
        ensures
            r == self.buffered().len(),
    {
        self.frame_buffer.get_buffer_size()
    }
}

} // verus!
