//! A bounded first-in first-out buffer of encoded frames, with byte
//! accounting kept current on every insertion and eviction.
use vstd::prelude::*;

verus! {

/// Capacity used when none is given.
pub const DEFAULT_CAPACITY: usize = 3;

#[derive(Debug)]
pub struct FrameData {
    pub data: Vec<u8>,
    /// When the frame entered the buffer, in milliseconds.
    pub timestamp: u64,
    pub frame_id: u64,
    pub size_bytes: usize,
}

/// What a buffered frame holds, as the contracts speak of it.
pub ghost struct FrameRecord {
    pub data: Seq<u8>,
    pub timestamp: u64,
    pub frame_id: u64,
}

impl View for FrameData {
    type V = FrameRecord;

    open spec fn view(&self) -> FrameRecord {
        FrameRecord { data: self.data@, timestamp: self.timestamp, frame_id: self.frame_id }
    }
}

#[derive(Debug, Clone, Copy, PartialEq, Eq, Structural)]
pub struct FrameBufferStats {
    pub current_frames: usize,
    pub max_frames: usize,
    pub total_bytes: usize,
    pub average_frame_size_bytes: usize,
    pub buffer_duration_ms: u64,
    pub total_frames_processed: u64,
}

/// The sum of the sizes of the frames.
pub open spec fn total_size(s: Seq<FrameRecord>) -> nat
    decreases s.len(),
{
    if s.len() == 0 {
        0
    } else {
        total_size(s.drop_last()) + s.last().data.len()
    }
}

/// The sum of the sizes of the frames stamped at or after `since`.
pub open spec fn size_since(s: Seq<FrameRecord>, since: u64) -> nat
    decreases s.len(),
{
    if s.len() == 0 {
        0
    } else {
        size_since(s.drop_last(), since) + (if s.last().timestamp >= since { s.last().data.len() } else { 0 })
    }
}

/// How many frames are stamped at or after `since`.
pub open spec fn count_since(s: Seq<FrameRecord>, since: u64) -> nat
    decreases s.len(),
{
    if s.len() == 0 {
        0
    } else {
        count_since(s.drop_last(), since) + (if s.last().timestamp >= since { 1nat } else { 0nat })
    }
}

/// A count, or the largest `u64` when it does not fit.
pub open spec fn capped(v: nat) -> u64 {
    if v > u64::MAX { u64::MAX } else { v as u64 }
}

/// The start of a window of `window` ms that ends at `now`.
pub open spec fn window_start(now: u64, window: u64) -> u64 {
    if now >= window { (now - window) as u64 } else { 0 }
}

pub open spec fn ids_increasing(s: Seq<FrameRecord>) -> bool {
    forall|i: int, j: int| 0 <= i < j < s.len() ==> s[i].frame_id < s[j].frame_id
}

proof fn lemma_total_size_drop_first(s: Seq<FrameRecord>)
    requires
        s.len() > 0,
    ensures
        total_size(s) == s[0].data.len() + total_size(s.drop_first()),
    decreases s.len(),
{
    if s.len() > 1 {
        lemma_total_size_drop_first(s.drop_last());
        assert(s.drop_last().drop_first() =~= s.drop_first().drop_last());
        assert(s.drop_first().last() == s.last());
        assert(s.drop_last()[0] == s[0]);
    } else {
        assert(s.drop_first().len() == 0);
        assert(s.drop_last().len() == 0);
        assert(total_size(s.drop_first()) == 0);
        assert(total_size(s.drop_last()) == 0);
        assert(s.last() == s[0]);
    }
}

fn copy_frame(f: &FrameData) -> (r: FrameData)
    ensures
        r@ == f@,
        r.size_bytes == f.size_bytes,
{
    let data = f.data.clone();
    proof {
        assert(data@ =~= f.data@);
    }
    FrameData { data, timestamp: f.timestamp, frame_id: f.frame_id, size_bytes: f.size_bytes }
}

pub struct FrameBuffer {
    buffer: Vec<FrameData>,
    max_size: usize,
    frame_counter: u64,
    total_bytes: usize,
}

impl View for FrameBuffer {
    type V = Seq<FrameRecord>;

    /// The buffered frames, oldest first.
    closed spec fn view(&self) -> Seq<FrameRecord> {
        self.buffer@.map_values(|f: FrameData| f@)
    }
}

impl FrameBuffer {
    /// The most frames the buffer holds.
    pub closed spec fn capacity(&self) -> nat {
        self.max_size as nat
    }

    /// How many frames have been accepted since the buffer was made.
    pub closed spec fn frames_processed(&self) -> nat {
        self.frame_counter as nat
    }

    /// The byte count the buffer keeps.
    pub closed spec fn byte_count(&self) -> nat {
        self.total_bytes as nat
    }

    /// The buffer never holds more than its capacity, its byte count is the
    /// sum of the sizes of the frames it holds, and frame ids rise from the
    /// oldest frame to the newest, none above the count of accepted frames.
    pub open spec fn wf(&self) -> bool {
        &&& self@.len() <= self.capacity()
        &&& self.byte_count() == total_size(self@)
        &&& ids_increasing(self@)
        &&& forall|i: int| 0 <= i < self@.len() ==> 1 <= #[trigger] self@[i].frame_id <= self.frames_processed()
    }

    closed spec fn sizes_match(&self) -> bool {
        forall|i: int| 0 <= i < self.buffer@.len() ==> (#[trigger] self.buffer@[i]).size_bytes == self.buffer@[i].data@.len()
    }

    /// `wf`, and each frame's recorded size is its length.
    pub closed spec fn inv(&self) -> bool {
        self.wf() && self.sizes_match()
    }

    pub fn new(max_size: usize) -> (b: Self)
        ensures
            b.inv(),
            b.wf(),
            b@.len() == 0,
            b.capacity() == max_size,
            b.frames_processed() == 0,
    {
        let b = FrameBuffer { buffer: Vec::new(), max_size, frame_counter: 0, total_bytes: 0 };
        proof {
            assert(b@ =~= Seq::<FrameRecord>::empty());
        }
        b
    }

    /// A buffer of the default capacity.
    pub fn with_default_capacity() -> (b: Self)
        ensures
            b.inv(),
            b@.len() == 0,
            b.capacity() == DEFAULT_CAPACITY,
            b.frames_processed() == 0,
    {
        Self::new(DEFAULT_CAPACITY)
    }

    proof fn lemma_view_push(&self, old_buf: Seq<FrameData>, f: FrameData)
        requires
            self.buffer@ == old_buf.push(f),
        ensures
            self@ == old_buf.map_values(|g: FrameData| g@).push(f@),
    {
        assert(self@ =~= old_buf.map_values(|g: FrameData| g@).push(f@));
    }

    /// Stamps the frame with `now` and the next frame id and appends it,
    /// evicting the oldest frame first when the buffer is full. A buffer of
    /// capacity zero refuses every frame and stays as it is.
    pub fn add_frame(&mut self, data: Vec<u8>, now: u64)
        requires
            old(self).inv(),
            old(self).frames_processed() < u64::MAX,
            old(self).byte_count() + data@.len() <= usize::MAX,
        ensures
            final(self).inv(),
            final(self).wf(),
            final(self).capacity() == old(self).capacity(),
            old(self).capacity() == 0 ==> final(self)@ == old(self)@ && final(self).frames_processed() == old(self).frames_processed(),
            old(self).capacity() > 0 ==> {
                let kept = if old(self)@.len() >= old(self).capacity() { old(self)@.drop_first() } else { old(self)@ };
                &&& final(self).frames_processed() == old(self).frames_processed() + 1
                &&& final(self)@ == kept.push(FrameRecord { data: data@, timestamp: now, frame_id: (old(self).frames_processed() + 1) as u64 })
            },
    {
        if self.max_size == 0 {
            return;
        }
        self.frame_counter = self.frame_counter + 1;
        let frame_id = self.frame_counter;
        let ghost before = self@;
        if self.buffer.len() >= self.max_size {
            let old_frame = self.buffer.remove(0);
            proof {
                lemma_total_size_drop_first(before);
                assert(self@ =~= before.drop_first());
                assert(old_frame@ == before[0]);
            }
            self.total_bytes = self.total_bytes - old_frame.size_bytes;
        }
        let ghost kept = self@;
        let ghost kept_buf = self.buffer@;
        let size_bytes = data.len();
        let frame = FrameData { data, timestamp: now, frame_id, size_bytes };
        self.total_bytes = self.total_bytes + size_bytes;
        self.buffer.push(frame);
        proof {
            self.lemma_view_push(kept_buf, frame);
            assert(kept_buf.map_values(|g: FrameData| g@) == kept);
            assert(self@.drop_last() =~= kept);
            assert forall|i: int| 0 <= i < self@.len() implies 1 <= #[trigger] self@[i].frame_id <= self.frames_processed() by {
                if i < kept.len() {
                    assert(self@[i] == kept[i]);
                }
            }
            assert forall|i: int, j: int| 0 <= i < j < self@.len() implies self@[i].frame_id < self@[j].frame_id by {
                assert(self@[i] == kept[i]);
                if j < kept.len() {
                    assert(self@[j] == kept[j]);
                }
            }
            assert forall|i: int| 0 <= i < self.buffer@.len() implies (#[trigger] self.buffer@[i]).size_bytes == self.buffer@[i].data@.len() by {
                if i < kept_buf.len() {
                    assert(self.buffer@[i] == kept_buf[i]);
                }
            }
        }
    }

    pub fn get_latest_frame(&self) -> (r: Option<Vec<u8>>)
        ensures
            self@.len() == 0 ==> r is None,
            self@.len() > 0 ==> r is Some && r->Some_0@ == self@.last().data,
    {
        if self.buffer.len() == 0 {
            None
        } else {
            let f = copy_frame(&self.buffer[self.buffer.len() - 1]);
            proof {
                assert(self@.last() == self.buffer@[self.buffer@.len() - 1]@);
            }
            Some(f.data)
        }
    }

    /// The data of the buffered frame with this id.
    pub fn get_frame_by_id(&self, frame_id: u64) -> (r: Option<Vec<u8>>)
        ensures
            match r {
                Some(d) => exists|i: int| 0 <= i < self@.len() && self@[i].frame_id == frame_id && self@[i].data == d@,
                None => forall|i: int| 0 <= i < self@.len() ==> self@[i].frame_id != frame_id,
            },
    {
        let mut i: usize = 0;
        while i < self.buffer.len()
            invariant
                i <= self.buffer@.len(),
                forall|j: int| 0 <= j < i ==> self@[j].frame_id != frame_id,
            decreases self.buffer@.len() - i,
        {
            assert(self@[i as int] == self.buffer@[i as int]@);
            if self.buffer[i].frame_id == frame_id {
                let f = copy_frame(&self.buffer[i]);
                return Some(f.data);
            }
            i = i + 1;
        }
        None
    }

    /// The buffered frames stamped at or after `since`, oldest first.
    pub fn get_frames_since(&self, since: u64) -> (r: Vec<FrameData>)
        ensures
            r@.map_values(|f: FrameData| f@) == self@.filter(|f: FrameRecord| f.timestamp >= since),
    {
        let mut out: Vec<FrameData> = Vec::new();
        let mut i: usize = 0;
        while i < self.buffer.len()
            invariant
                i <= self.buffer@.len(),
                out@.map_values(|f: FrameData| f@) == self@.subrange(0, i as int).filter(|f: FrameRecord| f.timestamp >= since),
            decreases self.buffer@.len() - i,
        {
            let ghost prev = out@;
            proof {
                assert(self@.subrange(0, i + 1) =~= self@.subrange(0, i as int).push(self@[i as int]));
                self@.subrange(0, i as int).lemma_filter_push(self@[i as int], |f: FrameRecord| f.timestamp >= since);
                assert(self@[i as int] == self.buffer@[i as int]@);
            }
            if self.buffer[i].timestamp >= since {
                let f = copy_frame(&self.buffer[i]);
                out.push(f);
                proof {
                    assert(out@.map_values(|f: FrameData| f@) =~= prev.map_values(|f: FrameData| f@).push(f@));
                }
            }
            i = i + 1;
        }
        proof {
            assert(self@.subrange(0, i as int) =~= self@);
        }
        out
    }

    /// The sum of the sizes of the frames stamped at or after `since`.
    pub fn bytes_since(&self, since: u64) -> (r: usize)
        requires
            self.inv(),
        ensures
            r == size_since(self@, since),
    {
        let mut sum: usize = 0;
        let mut i: usize = 0;
        proof {
            self.lemma_size_since_le(self@.len() as int, since);
        }
        while i < self.buffer.len()
            invariant
                self.inv(),
                i <= self.buffer@.len(),
                sum == size_since(self@.subrange(0, i as int), since),
            decreases self.buffer@.len() - i,
        {
            proof {
                assert(self@.subrange(0, i + 1).drop_last() =~= self@.subrange(0, i as int));
                assert(self@[i as int] == self.buffer@[i as int]@);
                self.lemma_size_since_le(i + 1, since);
            }
            if self.buffer[i].timestamp >= since {
                sum = sum + self.buffer[i].size_bytes;
            }
            i = i + 1;
        }
        proof {
            assert(self@.subrange(0, i as int) =~= self@);
        }
        sum
    }

    fn count_since_exec(&self, since: u64) -> (r: usize)
        ensures
            r == count_since(self@, since),
    {
        let mut n: usize = 0;
        let mut i: usize = 0;
        while i < self.buffer.len()
            invariant
                i <= self.buffer@.len(),
                n == count_since(self@.subrange(0, i as int), since),
                n <= i,
            decreases self.buffer@.len() - i,
        {
            proof {
                assert(self@.subrange(0, i + 1).drop_last() =~= self@.subrange(0, i as int));
                assert(self@[i as int] == self.buffer@[i as int]@);
            }
            if self.buffer[i].timestamp >= since {
                n = n + 1;
            }
            i = i + 1;
        }
        proof {
            assert(self@.subrange(0, i as int) =~= self@);
        }
        n
    }

    /// Frames per second over the `window_ms` ending at `now`, rounded down;
    /// zero for an empty window.
    pub fn get_frame_rate(&self, window_ms: u64, now: u64) -> (r: u64)
        ensures
            window_ms == 0 ==> r == 0,
            window_ms > 0 ==> r == capped(count_since(self@, window_start(now, window_ms)) * 1000 / (window_ms as nat)),
    {
        if window_ms == 0 {
            return 0;
        }
        let since = if now >= window_ms { now - window_ms } else { 0 };
        let n = self.count_since_exec(since) as u128;
        let r = n * 1000 / (window_ms as u128);
        if r > u64::MAX as u128 { u64::MAX } else { r as u64 }
    }

    /// Bits per second sent over the `window_ms` ending at `now`: eight
    /// times the bytes of the frames stamped in it, per second, rounded
    /// down; zero for an empty window.
    pub fn get_bandwidth_usage(&self, window_ms: u64, now: u64) -> (r: u64)
        requires
            self.inv(),
        ensures
            window_ms == 0 ==> r == 0,
            window_ms > 0 ==> r == capped(size_since(self@, window_start(now, window_ms)) * 8000 / (window_ms as nat)),
    {
        if window_ms == 0 {
            return 0;
        }
        let since = if now >= window_ms { now - window_ms } else { 0 };
        let bytes = self.bytes_since(since) as u128;
        let r = (bytes * 8000) / (window_ms as u128);
        if r > u64::MAX as u128 { u64::MAX } else { r as u64 }
    }

    proof fn lemma_size_since_le(&self, k: int, since: u64)
        requires
            self.inv(),
            0 <= k <= self@.len(),
        ensures
            size_since(self@.subrange(0, k), since) <= self.byte_count(),
    {
        lemma_size_since_le_total(self@.subrange(0, k), since);
        lemma_total_size_prefix(self@, k);
    }

    pub fn get_buffer_size(&self) -> (r: usize)
        ensures
            r == self@.len(),
    {
        self.buffer.len()
    }

    pub fn get_total_bytes(&self) -> (r: usize)
        ensures
            r == self.byte_count(),
    {
        self.total_bytes
    }

    pub fn clear(&mut self)
        requires
            old(self).inv(),
        ensures
            final(self).inv(),
            final(self)@.len() == 0,
            final(self).capacity() == old(self).capacity(),
            final(self).frames_processed() == old(self).frames_processed(),
    {
        self.buffer = Vec::new();
        self.total_bytes = 0;
        proof {
            assert(self@ =~= Seq::<FrameRecord>::empty());
        }
    }

    pub fn get_buffer_stats(&self) -> (r: FrameBufferStats)
        requires
            self.inv(),
        ensures
            r.current_frames == self@.len(),
            r.max_frames == self.capacity(),
            r.total_bytes == self.byte_count(),
            r.average_frame_size_bytes == (if self@.len() == 0 { 0 } else { self.byte_count() / self@.len() }),
            r.buffer_duration_ms == (if self@.len() == 0 || self@.last().timestamp < self@[0].timestamp { 0 } else {
                (self@.last().timestamp - self@[0].timestamp) as u64
            }),
            r.total_frames_processed == self.frames_processed(),
    {
        let n = self.buffer.len();
        let average = if n == 0 { 0 } else { self.total_bytes / n };
        let duration = if n == 0 {
            0
        } else {
            let oldest = self.buffer[0].timestamp;
            let newest = self.buffer[n - 1].timestamp;
            proof {
                assert(self@[0] == self.buffer@[0]@);
                assert(self@.last() == self.buffer@[n - 1]@);
            }
            if newest < oldest { 0 } else { newest - oldest }
        };
        FrameBufferStats {
            current_frames: n,
            max_frames: self.max_size,
            total_bytes: self.total_bytes,
            average_frame_size_bytes: average,
            buffer_duration_ms: duration,
            total_frames_processed: self.frame_counter,
        }
    }

    /// Evicts from the front every frame stamped before `now - max_age`.
    pub fn cleanup_old_frames(&mut self, max_age: u64, now: u64)
        requires
            old(self).inv(),
        ensures
            final(self).inv(),
            final(self).capacity() == old(self).capacity(),
            final(self).frames_processed() == old(self).frames_processed(),
            exists|k: int| 0 <= k <= old(self)@.len() && final(self)@ == old(self)@.subrange(k, old(self)@.len() as int)
                && (forall|i: int| 0 <= i < k ==> old(self)@[i].timestamp < (if now >= max_age { now - max_age } else { 0 }))
                && (k < old(self)@.len() ==> old(self)@[k].timestamp >= (if now >= max_age { now - max_age } else { 0 })),
    {
        let cutoff = if now >= max_age { now - max_age } else { 0 };
        let ghost k: int = 0;
        while self.buffer.len() > 0 && self.buffer[0].timestamp < cutoff
            invariant
                self.inv(),
                self.capacity() == old(self).capacity(),
                self.frames_processed() == old(self).frames_processed(),
                0 <= k <= old(self)@.len(),
                self@ == old(self)@.subrange(k, old(self)@.len() as int),
                forall|i: int| 0 <= i < k ==> old(self)@[i].timestamp < cutoff,
            decreases self.buffer@.len(),
        {
            proof {
                assert(self@[0] == self.buffer@[0]@);
            }
            let ghost prev = self@;
            self.evict_oldest();
            proof {
                assert(prev.drop_first() =~= old(self)@.subrange(k + 1, old(self)@.len() as int));
                k = k + 1;
            }
        }
        proof {
            if k < old(self)@.len() {
                assert(self@[0] == self.buffer@[0]@);
                assert(self@[0] == old(self)@[k]);
            }
        }
    }

    fn evict_oldest(&mut self)
        requires
            old(self).inv(),
            old(self)@.len() > 0,
        ensures
            final(self).inv(),
            final(self)@ == old(self)@.drop_first(),
            final(self).capacity() == old(self).capacity(),
            final(self).frames_processed() == old(self).frames_processed(),
    {
        let ghost before = self@;
        let old_frame = self.buffer.remove(0);
        proof {
            lemma_total_size_drop_first(before);
            assert(self@ =~= before.drop_first());
            assert(old_frame@ == before[0]);
            assert forall|i: int, j: int| 0 <= i < j < self@.len() implies self@[i].frame_id < self@[j].frame_id by {
                assert(self@[i] == before[i + 1] && self@[j] == before[j + 1]);
            }
            assert forall|i: int| 0 <= i < self@.len() implies 1 <= #[trigger] self@[i].frame_id <= self.frames_processed() by {
                assert(self@[i] == before[i + 1]);
            }
        }
        self.total_bytes = self.total_bytes - old_frame.size_bytes;
    }

    /// Changes the capacity, evicting the oldest frames that no longer fit.
    #[verifier::rlimit(40)]
    pub fn set_max_size(&mut self, new_max_size: usize)
        requires
            old(self).inv(),
        ensures
            final(self).inv(),
            final(self).capacity() == new_max_size,
            final(self).frames_processed() == old(self).frames_processed(),
            final(self)@ == (if old(self)@.len() > new_max_size {
                old(self)@.subrange(old(self)@.len() - new_max_size, old(self)@.len() as int)
            } else {
                old(self)@
            }),
    {
        let ghost k: int = 0;
        while self.buffer.len() > new_max_size
            invariant
                self.inv(),
                self.capacity() == old(self).capacity(),
                self.frames_processed() == old(self).frames_processed(),
                0 <= k <= old(self)@.len(),
                self@ == old(self)@.subrange(k, old(self)@.len() as int),
                old(self)@.len() > new_max_size ==> k <= old(self)@.len() - new_max_size,
                old(self)@.len() <= new_max_size ==> k == 0,
            decreases self.buffer@.len(),
        {
            let ghost prev = self@;
            self.evict_oldest();
            proof {
                assert(prev.drop_first() =~= old(self)@.subrange(k + 1, old(self)@.len() as int));
                k = k + 1;
            }
        }
        self.max_size = new_max_size;
        proof {
            if old(self)@.len() <= new_max_size {
                assert(old(self)@.subrange(0, old(self)@.len() as int) =~= old(self)@);
            }
        }
    }
}

proof fn lemma_size_since_le_total(s: Seq<FrameRecord>, since: u64)
    ensures
        size_since(s, since) <= total_size(s),
    decreases s.len(),
{
    if s.len() > 0 {
        lemma_size_since_le_total(s.drop_last(), since);
    }
}

proof fn lemma_total_size_prefix(s: Seq<FrameRecord>, k: int)
    requires
        0 <= k <= s.len(),
    ensures
        total_size(s.subrange(0, k)) <= total_size(s),
    decreases s.len() - k,
{
    if k < s.len() {
        lemma_total_size_prefix(s, k + 1);
        assert(s.subrange(0, k + 1).drop_last() =~= s.subrange(0, k));
    } else {
        assert(s.subrange(0, k) =~= s);
    }
}

} // verus!
