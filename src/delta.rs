//! The delta codec: which 16×16 blocks changed between two frames, the
//! byte format of encoded frames, and applying an encoded frame to the
//! previous decoded one.
use vstd::prelude::*;

verus! {

/// Side of a square block, in pixels.
pub const BLOCK_SIZE: u32 = 16;
/// A pixel counts as changed when |ΔR| + |ΔG| + |ΔB| exceeds this.
pub const PIXEL_THRESHOLD: u32 = 30;

/// An RGBA8 image, row after row.
#[derive(Debug)]
pub struct RawFrame {
    pub width: u32,
    pub height: u32,
    pub data: Vec<u8>,
}

impl RawFrame {
    /// The buffer holds four bytes for every pixel.
    pub open spec fn wf(&self) -> bool {
        self.data@.len() == self.width * self.height * 4
    }
}

/// Byte offset of pixel (x, y) in an image `w` pixels wide.
pub open spec fn offset(w: int, x: int, y: int) -> int {
    (y * w + x) * 4
}

pub open spec fn absdiff(a: u8, b: u8) -> int {
    if a >= b { a - b } else { b - a }
}

/// |ΔR| + |ΔG| + |ΔB| of the pixel at byte offset `i`.
pub open spec fn pixel_delta(cur: Seq<u8>, prev: Seq<u8>, i: int) -> int {
    absdiff(cur[i], prev[i]) + absdiff(cur[i + 1], prev[i + 1]) + absdiff(cur[i + 2], prev[i + 2])
}

/// How many of the first `n` pixels of row `y` from column `x` changed.
pub open spec fn changed_in_row(cur: Seq<u8>, prev: Seq<u8>, w: int, x: int, y: int, n: nat) -> nat
    decreases n,
{
    if n == 0 {
        0
    } else {
        changed_in_row(cur, prev, w, x, y, (n - 1) as nat)
            + (if pixel_delta(cur, prev, offset(w, x + n - 1, y)) > PIXEL_THRESHOLD { 1nat } else { 0nat })
    }
}

/// How many pixels changed in the first `rows` rows of the block at (x, y)
/// that is `bw` pixels wide.
pub open spec fn changed_in_block(cur: Seq<u8>, prev: Seq<u8>, w: int, x: int, y: int, bw: nat, rows: nat) -> nat
    decreases rows,
{
    if rows == 0 {
        0
    } else {
        changed_in_block(cur, prev, w, x, y, bw, (rows - 1) as nat) + changed_in_row(cur, prev, w, x, y + rows - 1, bw)
    }
}

/// A block changed when more than a tenth of its pixels did.
pub open spec fn block_changed(cur: Seq<u8>, prev: Seq<u8>, w: int, x: int, y: int, bw: nat, bh: nat) -> bool {
    changed_in_block(cur, prev, w, x, y, bw, bh) * 10 > bw * bh
}

proof fn lemma_offset_bounds(w: int, h: int, x: int, y: int)
    requires
        0 <= x < w,
        0 <= y < h,
    ensures
        0 <= offset(w, x, y),
        offset(w, x, y) + 4 <= w * h * 4,
{
    assert(y * w + x < h * w) by (nonlinear_arith)
        requires 0 <= x < w, 0 <= y < h;
    assert(0 <= y * w) by (nonlinear_arith)
        requires 0 <= y, 0 <= w;
    assert(h * w == w * h) by (nonlinear_arith);
}

proof fn lemma_row_count_bound(cur: Seq<u8>, prev: Seq<u8>, w: int, x: int, y: int, n: nat)
    ensures
        changed_in_row(cur, prev, w, x, y, n) <= n,
    decreases n,
{
    if n > 0 {
        lemma_row_count_bound(cur, prev, w, x, y, (n - 1) as nat);
    }
}

proof fn lemma_block_count_bound(cur: Seq<u8>, prev: Seq<u8>, w: int, x: int, y: int, bw: nat, rows: nat)
    ensures
        changed_in_block(cur, prev, w, x, y, bw, rows) <= bw * rows,
    decreases rows,
{
    if rows > 0 {
        lemma_block_count_bound(cur, prev, w, x, y, bw, (rows - 1) as nat);
        lemma_row_count_bound(cur, prev, w, x, y + rows - 1, bw);
        assert(bw * rows == bw * (rows - 1) + bw) by (nonlinear_arith);
    }
}

fn absdiff_exec(a: u8, b: u8) -> (r: u32)
    ensures
        r == absdiff(a, b),
{
    if a >= b { (a - b) as u32 } else { (b - a) as u32 }
}

/// Whether the block at (x, y), `bw` × `bh` pixels, changed between the frames.
pub fn is_block_changed(current: &RawFrame, previous: &RawFrame, x: u32, y: u32, bw: u32, bh: u32) -> (r: bool)
    requires
        current.wf(),
        previous.wf(),
        current.width == previous.width,
        current.height == previous.height,
        x + bw <= current.width,
        y + bh <= current.height,
        bw <= BLOCK_SIZE,
        bh <= BLOCK_SIZE,
    ensures
        r == block_changed(current.data@, previous.data@, current.width as int, x as int, y as int, bw as nat, bh as nat),
{
    let w = current.width;
    let len = current.data.len();
    let ghost cur = current.data@;
    let ghost prev = previous.data@;
    let mut changed: u32 = 0;
    let mut dy: u32 = 0;
    while dy < bh
        invariant
            dy <= bh,
            current.wf(),
            previous.wf(),
            current.width == previous.width,
            current.height == previous.height,
            w == current.width,
            cur == current.data@,
            prev == previous.data@,
            x + bw <= current.width,
            y + bh <= current.height,
            bw <= BLOCK_SIZE,
            bh <= BLOCK_SIZE,
            changed as nat == changed_in_block(cur, prev, w as int, x as int, y as int, bw as nat, dy as nat),
            len == cur.len(),
        decreases bh - dy,
    {
        proof {
            lemma_block_count_bound(cur, prev, w as int, x as int, y as int, bw as nat, dy as nat);
            assert(bw * dy <= 256) by (nonlinear_arith)
                requires bw <= 16, dy <= 16;
        }
        let mut dx: u32 = 0;
        let mut row: u32 = 0;
        while dx < bw
            invariant
                dx <= bw,
                dy < bh,
                current.wf(),
                previous.wf(),
                current.width == previous.width,
                current.height == previous.height,
                w == current.width,
                cur == current.data@,
                prev == previous.data@,
                x + bw <= current.width,
                y + bh <= current.height,
                bw <= BLOCK_SIZE,
                row as nat == changed_in_row(cur, prev, w as int, x as int, (y + dy) as int, dx as nat),
                len == cur.len(),
            decreases bw - dx,
        {
            proof {
                lemma_offset_bounds(w as int, current.height as int, (x + dx) as int, (y + dy) as int);
                lemma_row_count_bound(cur, prev, w as int, x as int, (y + dy) as int, dx as nat);
                let py = (y + dy) as int;
                let px = (x + dx) as int;
                assert(0 <= py * (w as int) <= py * (w as int) + px) by (nonlinear_arith)
                    requires py >= 0, w >= 0, px >= 0;
            }
            let i: usize = (((y + dy) as usize) * (w as usize) + ((x + dx) as usize)) * 4;
            let d = absdiff_exec(current.data[i], previous.data[i])
                + absdiff_exec(current.data[i + 1], previous.data[i + 1])
                + absdiff_exec(current.data[i + 2], previous.data[i + 2]);
            if d > PIXEL_THRESHOLD {
                row = row + 1;
            }
            dx = dx + 1;
        }
        proof {
            lemma_row_count_bound(cur, prev, w as int, x as int, (y + dy) as int, bw as nat);
        }
        changed = changed + row;
        dy = dy + 1;
    }
    proof {
        lemma_block_count_bound(cur, prev, w as int, x as int, y as int, bw as nat, bh as nat);
        assert(bw * bh <= 256) by (nonlinear_arith)
            requires bw <= 16, bh <= 16;
    }
    changed * 10 > bw * bh
}


/// A rectangle of pixels.
#[derive(Debug, Clone, Copy, PartialEq, Eq, Structural)]
pub struct BlockRect {
    pub x: u32,
    pub y: u32,
    pub width: u32,
    pub height: u32,
}

/// How many blocks cover `n` pixels.
pub open spec fn blocks_over(n: nat) -> nat {
    ((n + 15) / 16) as nat
}

pub open spec fn min_block(n: int) -> int {
    if n < BLOCK_SIZE { n } else { BLOCK_SIZE as int }
}

/// The block in column `bx` and row `by` of the grid over a `w` × `h` image;
/// blocks at the right and bottom edges are cut to fit.
pub open spec fn block_at(w: nat, h: nat, bx: nat, by: nat) -> BlockRect {
    let x = bx * BLOCK_SIZE;
    let y = by * BLOCK_SIZE;
    BlockRect { x: x as u32, y: y as u32, width: min_block(w - x) as u32, height: min_block(h - y) as u32 }
}

pub open spec fn rect_changed(cur: Seq<u8>, prev: Seq<u8>, w: nat, r: BlockRect) -> bool {
    block_changed(cur, prev, w as int, r.x as int, r.y as int, r.width as nat, r.height as nat)
}

/// The changed blocks among the first `n` blocks of grid row `by`, left to right.
pub open spec fn changed_in_band(cur: Seq<u8>, prev: Seq<u8>, w: nat, h: nat, by: nat, n: nat) -> Seq<BlockRect>
    decreases n,
{
    if n == 0 {
        Seq::empty()
    } else {
        let before = changed_in_band(cur, prev, w, h, by, (n - 1) as nat);
        let r = block_at(w, h, (n - 1) as nat, by);
        if rect_changed(cur, prev, w, r) { before.push(r) } else { before }
    }
}

/// The changed blocks of the first `rows` grid rows, in row-major order.
pub open spec fn changed_blocks(cur: Seq<u8>, prev: Seq<u8>, w: nat, h: nat, rows: nat) -> Seq<BlockRect>
    decreases rows,
{
    if rows == 0 {
        Seq::empty()
    } else {
        changed_blocks(cur, prev, w, h, (rows - 1) as nat) + changed_in_band(cur, prev, w, h, (rows - 1) as nat, blocks_over(w))
    }
}

/// The changed blocks between two frames of the same size.
pub open spec fn frame_changes(cur: &RawFrame, prev: &RawFrame) -> Seq<BlockRect> {
    changed_blocks(cur.data@, prev.data@, cur.width as nat, cur.height as nat, blocks_over(cur.height as nat))
}

proof fn lemma_block_fits(n: nat, b: nat)
    requires
        b < blocks_over(n),
    ensures
        b * BLOCK_SIZE < n,
        b * BLOCK_SIZE + min_block(n - b * BLOCK_SIZE) <= n,
        min_block(n - b * BLOCK_SIZE) <= BLOCK_SIZE,
{
    assert(b * 16 < n) by (nonlinear_arith)
        requires b < (n + 15) / 16;
}

proof fn lemma_band_len(cur: Seq<u8>, prev: Seq<u8>, w: nat, h: nat, by: nat, n: nat)
    ensures
        changed_in_band(cur, prev, w, h, by, n).len() <= n,
    decreases n,
{
    if n > 0 {
        lemma_band_len(cur, prev, w, h, by, (n - 1) as nat);
    }
}

/// The blocks that changed between two frames of the same size, in
/// row-major order.
pub fn find_changed_blocks(current: &RawFrame, previous: &RawFrame) -> (r: Vec<BlockRect>)
    requires
        current.wf(),
        previous.wf(),
        current.width == previous.width,
        current.height == previous.height,
    ensures
        r@ == frame_changes(current, previous),
{
    let w = current.width;
    let h = current.height;
    let nbx: u32 = ((w as u64 + 15) / 16) as u32;
    let nby: u32 = ((h as u64 + 15) / 16) as u32;
    let ghost cur = current.data@;
    let ghost prev = previous.data@;
    let mut out: Vec<BlockRect> = Vec::new();
    let mut by: u32 = 0;
    while by < nby
        invariant
            by <= nby,
            nbx == blocks_over(w as nat),
            nby == blocks_over(h as nat),
            current.wf(),
            previous.wf(),
            w == current.width,
            h == current.height,
            current.width == previous.width,
            current.height == previous.height,
            cur == current.data@,
            prev == previous.data@,
            out@ == changed_blocks(cur, prev, w as nat, h as nat, by as nat),
        decreases nby - by,
    {
        proof {
            lemma_block_fits(h as nat, by as nat);
        }
        let y: u32 = by * 16;
        let bh: u32 = if h - y < 16 { h - y } else { 16 };
        let ghost start = out@;
        let mut bx: u32 = 0;
        while bx < nbx
            invariant
                bx <= nbx,
                by < nby,
                nbx == blocks_over(w as nat),
                nby == blocks_over(h as nat),
                current.wf(),
                previous.wf(),
                w == current.width,
                h == current.height,
                current.width == previous.width,
                current.height == previous.height,
                cur == current.data@,
                prev == previous.data@,
                y == by * BLOCK_SIZE,
                bh == min_block(h - y),
                y + bh <= h,
                bh <= BLOCK_SIZE,
                out@ == start + changed_in_band(cur, prev, w as nat, h as nat, by as nat, bx as nat),
            decreases nbx - bx,
        {
            proof {
                lemma_block_fits(w as nat, bx as nat);
            }
            let x: u32 = bx * 16;
            let bw: u32 = if w - x < 16 { w - x } else { 16 };
            let rect = BlockRect { x, y, width: bw, height: bh };
            assert(rect == block_at(w as nat, h as nat, bx as nat, by as nat));
            if is_block_changed(current, previous, x, y, bw, bh) {
                out.push(rect);
                proof {
                    assert(out@ =~= start + changed_in_band(cur, prev, w as nat, h as nat, by as nat, (bx + 1) as nat));
                }
            }
            bx = bx + 1;
        }
        by = by + 1;
    }
    out
}

/// Which kind of frame the codec emits.
#[derive(Debug, Clone, Copy, PartialEq, Eq, Structural)]
pub enum DeltaFrameType {
    Full,
    Delta,
    NoChange,
}

/// No changed block gives no change; more than half of the blocks a full
/// frame; anything between a delta.
pub open spec fn frame_kind(changed: nat, total: nat) -> DeltaFrameType {
    if changed == 0 {
        DeltaFrameType::NoChange
    } else if changed * 2 > total {
        DeltaFrameType::Full
    } else {
        DeltaFrameType::Delta
    }
}

pub fn choose_frame_type(changed: u64, total: u64) -> (r: DeltaFrameType)
    requires
        changed <= total,
    ensures
        r == frame_kind(changed as nat, total as nat),
{
    if changed == 0 {
        DeltaFrameType::NoChange
    } else if changed > total - changed {
        DeltaFrameType::Full
    } else {
        DeltaFrameType::Delta
    }
}


/// The first `n` bytes of `v` in little-endian order.
pub open spec fn le_bytes(v: nat, n: nat) -> Seq<u8>
    decreases n,
{
    if n == 0 {
        Seq::empty()
    } else {
        seq![(v % 256) as u8] + le_bytes(v / 256, (n - 1) as nat)
    }
}

pub open spec fn type_byte(t: DeltaFrameType) -> u8 {
    match t {
        DeltaFrameType::Full => 0,
        DeltaFrameType::Delta => 1,
        DeltaFrameType::NoChange => 2,
    }
}

/// Length of the frame header.
pub const HEADER_LEN: usize = 13;
/// Length of a block record before its data.
pub const BLOCK_RECORD_LEN: usize = 20;

/// The frame header: type byte, block count (u32), timestamp in ms (u64).
pub open spec fn header_bytes(t: DeltaFrameType, block_count: u32, timestamp: u64) -> Seq<u8> {
    seq![type_byte(t)] + le_bytes(block_count as nat, 4) + le_bytes(timestamp as nat, 8)
}

/// One block of a delta frame: x, y, width, height, data length (each a
/// u32), then the data.
pub open spec fn block_record(r: BlockRect, data: Seq<u8>) -> Seq<u8> {
    le_bytes(r.x as nat, 4) + le_bytes(r.y as nat, 4) + le_bytes(r.width as nat, 4) + le_bytes(r.height as nat, 4)
        + le_bytes(data.len(), 4) + data
}

/// The records of the blocks, one after the other.
pub open spec fn block_records(rects: Seq<BlockRect>, payloads: Seq<Seq<u8>>) -> Seq<u8>
    decreases rects.len(),
{
    if rects.len() == 0 || payloads.len() == 0 {
        Seq::empty()
    } else {
        block_records(rects.drop_last(), payloads.drop_last()) + block_record(rects.last(), payloads.last())
    }
}

/// What the still-image encoder makes of an RGBA image at a quality, when it
/// succeeds.
pub uninterp spec fn jpeg_encoding(rgba: Seq<u8>, width: u32, height: u32, quality: u8) -> Option<Seq<u8>>;

/// Relies on `image::codecs::jpeg::JpegEncoder::new_with_quality` and its
/// `encode` with `ColorType::Rgba8`, writing into a `Vec`: the bytes depend
/// on the arguments alone. `encode` panics on a buffer whose length is not
/// four bytes per pixel; this library encodes only non-empty images.
#[verifier::external_body]
fn encode_jpeg(rgba: &[u8], width: u32, height: u32, quality: u8) -> (r: Option<Vec<u8>>)
    requires
        width > 0,
        height > 0,
        rgba@.len() == width * height * 4,
    ensures
        match r {
            Some(v) => jpeg_encoding(rgba@, width, height, quality) == Some(v@),
            None => jpeg_encoding(rgba@, width, height, quality) is None,
        },
{
    let mut out: Vec<u8> = Vec::new();
    let mut encoder = image::codecs::jpeg::JpegEncoder::new_with_quality(&mut out, quality);
    match encoder.encode(rgba, width, height, image::ColorType::Rgba8) {
        Ok(()) => Some(out),
        Err(_) => None,
    }
}

fn push_le(out: &mut Vec<u8>, v: u64, n: usize)
    ensures
        final(out)@ == old(out)@ + le_bytes(v as nat, n as nat),
    decreases n,
{
    if n > 0 {
        out.push((v % 256) as u8);
        push_le(out, v / 256, n - 1);
        proof {
            assert(final(out)@ =~= old(out)@ + le_bytes(v as nat, n as nat));
        }
    } else {
        proof {
            assert(out@ =~= old(out)@ + le_bytes(v as nat, n as nat));
        }
    }
}

fn push_header(out: &mut Vec<u8>, t: DeltaFrameType, block_count: u32, timestamp: u64)
    ensures
        final(out)@ == old(out)@ + header_bytes(t, block_count, timestamp),
{
    let b: u8 = match t {
        DeltaFrameType::Full => 0,
        DeltaFrameType::Delta => 1,
        DeltaFrameType::NoChange => 2,
    };
    out.push(b);
    push_le(out, block_count as u64, 4);
    push_le(out, timestamp, 8);
    proof {
        assert(out@ =~= old(out)@ + header_bytes(t, block_count, timestamp));
    }
}

fn push_bytes(out: &mut Vec<u8>, data: &[u8])
    ensures
        final(out)@ == old(out)@ + data@,
{
    let mut i: usize = 0;
    while i < data.len()
        invariant
            i <= data@.len(),
            out@ == old(out)@ + data@.subrange(0, i as int),
        decreases data@.len() - i,
    {
        out.push(data[i]);
        i = i + 1;
        proof {
            assert(out@ =~= old(out)@ + data@.subrange(0, i as int));
        }
    }
    proof {
        assert(data@.subrange(0, data@.len() as int) =~= data@);
    }
}

/// The pixels of a rectangle, row after row.
pub open spec fn rect_pixels(data: Seq<u8>, w: nat, r: BlockRect, rows: nat) -> Seq<u8>
    decreases rows,
{
    if rows == 0 {
        Seq::empty()
    } else {
        let start = offset(w as int, r.x as int, r.y + rows - 1);
        rect_pixels(data, w, r, (rows - 1) as nat) + data.subrange(start, start + r.width * 4)
    }
}

proof fn lemma_rect_pixels_len(data: Seq<u8>, w: nat, r: BlockRect, rows: nat)
    requires
        r.x + r.width <= w,
        data.len() >= offset(w as int, 0, r.y + rows as int),
    ensures
        rect_pixels(data, w, r, rows).len() == r.width * rows * 4,
    decreases rows,
{
    if rows > 0 {
        assert(offset(w as int, 0, r.y + rows - 1) <= offset(w as int, 0, r.y + rows as int)) by (nonlinear_arith)
            requires w >= 0;
        lemma_rect_pixels_len(data, w, r, (rows - 1) as nat);
        assert(offset(w as int, r.x as int, r.y + rows - 1) + r.width * 4 <= offset(w as int, 0, r.y + rows as int))
            by (nonlinear_arith)
            requires r.x + r.width <= w;
        assert(r.width * rows * 4 == r.width * (rows - 1) * 4 + r.width * 4) by (nonlinear_arith);
        assert(0 <= offset(w as int, r.x as int, r.y + rows - 1)) by (nonlinear_arith)
            requires r.y + rows - 1 >= 0, w >= 0, r.x >= 0;
        let start = offset(w as int, r.x as int, r.y + rows - 1);
        assert(data.subrange(start, start + r.width * 4).len() == r.width * 4);
    } else {
        assert(r.width * rows * 4 == 0) by (nonlinear_arith)
            requires rows == 0;
    }
}

/// Copies the pixels of a rectangle out of a frame.
fn extract_rect(frame: &RawFrame, r: BlockRect) -> (out: Vec<u8>)
    requires
        frame.wf(),
        r.x + r.width <= frame.width,
        r.y + r.height <= frame.height,
    ensures
        out@ == rect_pixels(frame.data@, frame.width as nat, r, r.height as nat),
        out@.len() == r.width * r.height * 4,
{
    let w = frame.width;
    let mut out: Vec<u8> = Vec::new();
    let mut row: u32 = 0;
    let len = frame.data.len();
    while row < r.height
        invariant
            row <= r.height,
            frame.wf(),
            w == frame.width,
            len == frame.data@.len(),
            r.x + r.width <= frame.width,
            r.y + r.height <= frame.height,
            out@ == rect_pixels(frame.data@, w as nat, r, row as nat),
        decreases r.height - row,
    {
        let ghost before = out@;
        let y = r.y + row;
        proof {
            assert(offset(w as int, r.x as int, y as int) + r.width * 4 <= w * frame.height * 4) by (nonlinear_arith)
                requires r.x + r.width <= w, y < frame.height;
            assert(0 <= offset(w as int, r.x as int, y as int)) by (nonlinear_arith)
                requires y >= 0, w >= 0;
        }
        let start: usize = ((y as usize) * (w as usize) + (r.x as usize)) * 4;
        let end: usize = start + (r.width as usize) * 4;
        let mut i: usize = start;
        while i < end
            invariant
                start <= i <= end,
                end <= len,
                len == frame.data@.len(),
                out@ == before + frame.data@.subrange(start as int, i as int),
            decreases end - i,
        {
            out.push(frame.data[i]);
            i = i + 1;
            proof {
                assert(out@ =~= before + frame.data@.subrange(start as int, i as int));
            }
        }
        row = row + 1;
    }
    proof {
        assert(offset(w as int, 0, r.y + r.height) <= w * frame.height * 4) by (nonlinear_arith)
            requires r.y + r.height <= frame.height, w >= 0;
        lemma_rect_pixels_len(frame.data@, w as nat, r, r.height as nat);
    }
    out
}

#[derive(Debug, Clone, Copy, PartialEq, Eq, Structural)]
pub enum CodecError {
    /// The still-image encoder refused the image, or the image is empty.
    EncodeFailed,
    /// The encoded bytes are not a frame this codec reads.
    DecodeFailed,
    /// A full frame's image does not have the size it claims.
    DimensionsChanged,
}

#[derive(Debug, Clone, Copy, PartialEq, Eq, Structural)]
pub enum CompressionType {
    JPEG,
    WebP,
    H264,
    VP8,
    AV1,
}

/// A full frame: the header and the whole image.
pub open spec fn full_frame(f: &RawFrame, quality: u8, timestamp: u64) -> Option<Seq<u8>> {
    if f.width == 0 || f.height == 0 {
        None
    } else {
        match jpeg_encoding(f.data@, f.width, f.height, quality) {
            Some(img) => Some(header_bytes(DeltaFrameType::Full, 0, timestamp) + img),
            None => None,
        }
    }
}

/// The encoded blocks of the rectangles of a frame, when every one encodes.
pub open spec fn block_payloads(f: &RawFrame, rects: Seq<BlockRect>, quality: u8) -> Option<Seq<Seq<u8>>>
    decreases rects.len(),
{
    if rects.len() == 0 {
        Some(Seq::empty())
    } else {
        let r = rects.last();
        match (block_payloads(f, rects.drop_last(), quality),
            jpeg_encoding(rect_pixels(f.data@, f.width as nat, r, r.height as nat), r.width, r.height, quality)) {
            (Some(ps), Some(p)) => Some(ps.push(p)),
            _ => None,
        }
    }
}

/// A delta frame of the given rectangles.
pub open spec fn delta_frame(f: &RawFrame, rects: Seq<BlockRect>, quality: u8, timestamp: u64) -> Option<Seq<u8>> {
    match block_payloads(f, rects, quality) {
        Some(ps) => Some(header_bytes(DeltaFrameType::Delta, rects.len() as u32, timestamp) + block_records(rects, ps)),
        None => None,
    }
}

/// What the codec emits for `cur` after `prev`: a full frame without a
/// previous frame of the same size or when more than half of the blocks
/// changed, a header alone when none did, else the changed blocks.
pub open spec fn encoded_frame(cur: &RawFrame, prev: Option<&RawFrame>, quality: u8, timestamp: u64) -> Option<Seq<u8>> {
    match prev {
        Some(p) if p.width == cur.width && p.height == cur.height => {
            let changes = frame_changes(cur, p);
            let total = blocks_over(cur.width as nat) * blocks_over(cur.height as nat);
            match frame_kind(changes.len(), total) {
                DeltaFrameType::NoChange => Some(header_bytes(DeltaFrameType::NoChange, 0, timestamp)),
                DeltaFrameType::Full => full_frame(cur, quality, timestamp),
                DeltaFrameType::Delta => delta_frame(cur, changes, quality, timestamp),
            }
        },
        _ => full_frame(cur, quality, timestamp),
    }
}


proof fn lemma_changes_len(cur: Seq<u8>, prev: Seq<u8>, w: nat, h: nat, rows: nat)
    ensures
        changed_blocks(cur, prev, w, h, rows).len() <= rows * blocks_over(w),
    decreases rows,
{
    if rows > 0 {
        lemma_changes_len(cur, prev, w, h, (rows - 1) as nat);
        lemma_band_len(cur, prev, w, h, (rows - 1) as nat, blocks_over(w));
        assert(rows * blocks_over(w) == (rows - 1) * blocks_over(w) + blocks_over(w)) by (nonlinear_arith);
    }
}

proof fn lemma_payloads_prefix_none(f: &RawFrame, rects: Seq<BlockRect>, k: int, quality: u8)
    requires
        0 <= k <= rects.len(),
        block_payloads(f, rects.subrange(0, k), quality) is None,
    ensures
        block_payloads(f, rects, quality) is None,
    decreases rects.len() - k,
{
    if k == rects.len() {
        assert(rects.subrange(0, k) =~= rects);
    } else {
        assert(rects.drop_last().subrange(0, k) =~= rects.subrange(0, k));
        lemma_payloads_prefix_none(f, rects.drop_last(), k, quality);
    }
}

fn push_block(out: &mut Vec<u8>, r: BlockRect, data: &Vec<u8>)
    ensures
        final(out)@ == old(out)@ + block_record(r, data@),
{
    push_le(out, r.x as u64, 4);
    push_le(out, r.y as u64, 4);
    push_le(out, r.width as u64, 4);
    push_le(out, r.height as u64, 4);
    push_le(out, data.len() as u64, 4);
    push_bytes(out, data.as_slice());
    proof {
        assert(out@ =~= old(out)@ + block_record(r, data@));
    }
}

#[derive(Debug, Clone, Copy, PartialEq, Eq, Structural)]
pub struct CompressionInfo {
    pub compression_type: CompressionType,
    pub quality: u8,
    pub supports_delta: bool,
    pub supports_adaptive: bool,
}

/// Encodes frames at a quality; every declared format is encoded as JPEG.
pub struct Compressor {
    quality: u8,
    compression_type: CompressionType,
    adaptive_quality: bool,
}

impl Compressor {
    pub closed spec fn current_quality(&self) -> u8 {
        self.quality
    }

    pub fn new(quality: u8, compression_type: CompressionType, adaptive_quality: bool) -> (r: Self)
        ensures
            r.current_quality() == quality,
    {
        Compressor { quality, compression_type, adaptive_quality }
    }

    /// A full frame of `image`, stamped with `timestamp` (ms).
    pub fn compress_frame(&self, image: &RawFrame, timestamp: u64) -> (r: Result<Vec<u8>, CodecError>)
        requires
            image.wf(),
        ensures
            match r {
                Ok(v) => full_frame(image, self.current_quality(), timestamp) == Some(v@),
                Err(e) => full_frame(image, self.current_quality(), timestamp) is None && e == CodecError::EncodeFailed,
            },
    {
        if image.width == 0 || image.height == 0 {
            return Err(CodecError::EncodeFailed);
        }
        match encode_jpeg(image.data.as_slice(), image.width, image.height, self.quality) {
            Some(img) => {
                let mut out: Vec<u8> = Vec::new();
                push_header(&mut out, DeltaFrameType::Full, 0, timestamp);
                push_bytes(&mut out, img.as_slice());
                Ok(out)
            },
            None => Err(CodecError::EncodeFailed),
        }
    }

    fn compress_blocks(&self, image: &RawFrame, rects: &Vec<BlockRect>, timestamp: u64) -> (r: Result<Vec<u8>, CodecError>)
        requires
            image.wf(),
            forall|i: int| 0 <= i < rects@.len() ==> {
                let b = #[trigger] rects@[i];
                b.x + b.width <= image.width && b.y + b.height <= image.height && b.width > 0 && b.height > 0
            },
        ensures
            match r {
                Ok(v) => delta_frame(image, rects@, self.current_quality(), timestamp) == Some(v@),
                Err(e) => delta_frame(image, rects@, self.current_quality(), timestamp) is None && e == CodecError::EncodeFailed,
            },
    {
        let mut out: Vec<u8> = Vec::new();
        push_header(&mut out, DeltaFrameType::Delta, rects.len() as u32, timestamp);
        let ghost head = out@;
        let ghost mut ps: Seq<Seq<u8>> = Seq::empty();
        let mut k: usize = 0;
        proof {
            assert(rects@.subrange(0, 0) =~= Seq::<BlockRect>::empty());
            assert(out@ =~= head + block_records(rects@.subrange(0, 0), ps));
        }
        while k < rects.len()
            invariant
                image.wf(),
                k <= rects@.len(),
                forall|i: int| 0 <= i < rects@.len() ==> {
                    let b = #[trigger] rects@[i];
                    b.x + b.width <= image.width && b.y + b.height <= image.height && b.width > 0 && b.height > 0
                },
                block_payloads(image, rects@.subrange(0, k as int), self.current_quality()) == Some(ps),
                ps.len() == k,
                out@ == head + block_records(rects@.subrange(0, k as int), ps),
                head == header_bytes(DeltaFrameType::Delta, rects@.len() as u32, timestamp),
            decreases rects@.len() - k,
        {
            let r = rects[k];
            let pixels = extract_rect(image, r);
            let ghost pre = rects@.subrange(0, k as int);
            let ghost next = rects@.subrange(0, k + 1);
            proof {
                assert(next.drop_last() =~= pre);
                assert(next.last() == r);
            }
            match encode_jpeg(pixels.as_slice(), r.width, r.height, self.quality) {
                Some(p) => {
                    push_block(&mut out, r, &p);
                    proof {
                        let prev_ps = ps;
                        ps = ps.push(p@);
                        assert(ps.drop_last() =~= prev_ps);
                        assert(out@ =~= head + block_records(next, ps));
                    }
                },
                None => {
                    proof {
                        lemma_payloads_prefix_none(image, rects@, k + 1, self.quality);
                    }
                    return Err(CodecError::EncodeFailed);
                },
            }
            k = k + 1;
        }
        proof {
            assert(rects@.subrange(0, k as int) =~= rects@);
        }
        Ok(out)
    }
}


/// The rectangle lies inside a `w` × `h` image and is not empty.
pub open spec fn rect_fits(b: BlockRect, w: nat, h: nat) -> bool {
    b.x + b.width <= w && b.y + b.height <= h && b.width > 0 && b.height > 0
}

proof fn lemma_band_fits(cur: Seq<u8>, prev: Seq<u8>, w: nat, h: nat, by: nat, n: nat)
    requires
        by < blocks_over(h),
        n <= blocks_over(w),
    ensures
        forall|i: int| 0 <= i < changed_in_band(cur, prev, w, h, by, n).len() ==>
            rect_fits(#[trigger] changed_in_band(cur, prev, w, h, by, n)[i], w, h),
    decreases n,
{
    if n > 0 {
        lemma_band_fits(cur, prev, w, h, by, (n - 1) as nat);
        lemma_block_fits(w, (n - 1) as nat);
        lemma_block_fits(h, by);
        let before = changed_in_band(cur, prev, w, h, by, (n - 1) as nat);
        let r = block_at(w, h, (n - 1) as nat, by);
        assert(rect_fits(r, w, h));
        if rect_changed(cur, prev, w, r) {
            assert forall|i: int| 0 <= i < before.push(r).len() implies rect_fits(#[trigger] before.push(r)[i], w, h) by {
                if i < before.len() {
                    assert(before.push(r)[i] == before[i]);
                }
            }
        }
    }
}

proof fn lemma_changes_fit(cur: Seq<u8>, prev: Seq<u8>, w: nat, h: nat, rows: nat)
    requires
        rows <= blocks_over(h),
    ensures
        forall|i: int| 0 <= i < changed_blocks(cur, prev, w, h, rows).len() ==>
            rect_fits(#[trigger] changed_blocks(cur, prev, w, h, rows)[i], w, h),
    decreases rows,
{
    if rows > 0 {
        lemma_changes_fit(cur, prev, w, h, (rows - 1) as nat);
        lemma_band_fits(cur, prev, w, h, (rows - 1) as nat, blocks_over(w));
        let a = changed_blocks(cur, prev, w, h, (rows - 1) as nat);
        let b = changed_in_band(cur, prev, w, h, (rows - 1) as nat, blocks_over(w));
        assert forall|i: int| 0 <= i < (a + b).len() implies rect_fits(#[trigger] (a + b)[i], w, h) by {
            if i < a.len() {
                assert((a + b)[i] == a[i]);
            } else {
                assert((a + b)[i] == b[i - a.len()]);
            }
        }
    }
}

impl Compressor {
    /// Encodes `current` after `previous` as `encoded_frame` describes,
    /// stamped with `timestamp` (ms).
    pub fn compress_frame_delta(&self, current: &RawFrame, previous: Option<&RawFrame>, timestamp: u64)
        -> (r: Result<Vec<u8>, CodecError>)
        requires
            current.wf(),
            previous is Some ==> previous->Some_0.wf(),
        ensures
            match r {
                Ok(v) => encoded_frame(current, previous, self.current_quality(), timestamp) == Some(v@),
                Err(e) => encoded_frame(current, previous, self.current_quality(), timestamp) is None
                    && e == CodecError::EncodeFailed,
            },
    {
        match previous {
            Some(p) => {
                if p.width != current.width || p.height != current.height {
                    return self.compress_frame(current, timestamp);
                }
                let changes = find_changed_blocks(current, p);
                let nbx: u64 = (current.width as u64 + 15) / 16;
                let nby: u64 = (current.height as u64 + 15) / 16;
                proof {
                    lemma_changes_len(current.data@, p.data@, current.width as nat, current.height as nat, nby as nat);
                    lemma_changes_fit(current.data@, p.data@, current.width as nat, current.height as nat, nby as nat);
                    assert(nbx <= 0x1000_0000 && nby <= 0x1000_0000);
                    assert(nbx * nby <= 0x1000_0000 * 0x1000_0000) by (nonlinear_arith)
                        requires nbx <= 0x1000_0000, nby <= 0x1000_0000;
                    assert(nby * nbx == nbx * nby) by (nonlinear_arith);
                }
                let total: u64 = nbx * nby;
                match choose_frame_type(changes.len() as u64, total) {
                    DeltaFrameType::NoChange => {
                        let mut out: Vec<u8> = Vec::new();
                        push_header(&mut out, DeltaFrameType::NoChange, 0, timestamp);
                        proof {
                            assert(out@ =~= header_bytes(DeltaFrameType::NoChange, 0, timestamp));
                        }
                        Ok(out)
                    },
                    DeltaFrameType::Full => self.compress_frame(current, timestamp),
                    DeltaFrameType::Delta => self.compress_blocks(current, &changes, timestamp),
                }
            },
            None => self.compress_frame(current, timestamp),
        }
    }

    /// Sets the quality; fails, changing nothing, outside 1..=100.
    pub fn set_quality(&mut self, quality: u8) -> (r: Result<(), CodecError>)
        ensures
            r is Ok <==> 1 <= quality <= 100,
            r is Ok ==> final(self).current_quality() == quality,
            r is Err ==> final(self).current_quality() == old(self).current_quality(),
    {
        if quality == 0 || quality > 100 {
            return Err(CodecError::EncodeFailed);
        }
        self.quality = quality;
        Ok(())
    }

    pub fn get_compression_info(&self) -> (r: CompressionInfo)
        ensures
            r.quality == self.current_quality(),
            r.supports_delta,
    {
        CompressionInfo {
            compression_type: self.compression_type,
            quality: self.quality,
            supports_delta: true,
            supports_adaptive: self.adaptive_quality,
        }
    }
}


/// The little-endian number in the `n` bytes of `b` from `at`.
pub open spec fn read_le(b: Seq<u8>, at: int, n: nat) -> nat
    decreases n,
{
    if n == 0 {
        0
    } else {
        b[at] as nat + 256 * read_le(b, at + 1, (n - 1) as nat)
    }
}

/// One block of a delta frame as read back: its rectangle and its data.
pub ghost struct BlockData {
    pub rect: BlockRect,
    pub data: Seq<u8>,
}

/// The `count` block records of `b` from `at`, when they are all there.
pub open spec fn records_from(b: Seq<u8>, at: int, count: nat) -> Option<Seq<BlockData>>
    decreases count,
{
    if count == 0 {
        Some(Seq::empty())
    } else if at < 0 || at + 20 > b.len() || at + 20 + read_le(b, at + 16, 4) > b.len() {
        None
    } else {
        let size = read_le(b, at + 16, 4);
        let rect = BlockRect {
            x: read_le(b, at, 4) as u32,
            y: read_le(b, at + 4, 4) as u32,
            width: read_le(b, at + 8, 4) as u32,
            height: read_le(b, at + 12, 4) as u32,
        };
        match records_from(b, at + 20 + size, (count - 1) as nat) {
            Some(rest) => Some(seq![BlockData { rect, data: b.subrange(at + 20, at + 20 + size) }] + rest),
            None => None,
        }
    }
}

/// An encoded frame as read back.
pub ghost enum ParsedFrame {
    Full(Seq<u8>),
    Delta(Seq<BlockData>),
    NoChange,
}

/// Reads an encoded frame: its header, then for a full frame the image and
/// for a delta frame its block records.
pub open spec fn parse_frame(b: Seq<u8>) -> Option<ParsedFrame> {
    if b.len() < 13 {
        None
    } else if b[0] == 0 {
        Some(ParsedFrame::Full(b.subrange(13, b.len() as int)))
    } else if b[0] == 2 {
        Some(ParsedFrame::NoChange)
    } else if b[0] == 1 {
        match records_from(b, 13, read_le(b, 1, 4)) {
            Some(recs) => Some(ParsedFrame::Delta(recs)),
            None => None,
        }
    } else {
        None
    }
}

/// What the still-image decoder makes of bytes, when it succeeds: width,
/// height and RGBA pixels.
pub uninterp spec fn jpeg_decoding(bytes: Seq<u8>) -> Option<(u32, u32, Seq<u8>)>;

/// Relies on `image::load_from_memory_with_format` with `ImageFormat::Jpeg`
/// and `DynamicImage::to_rgba8`: the image depends on the bytes alone, and
/// an RGBA buffer holds four bytes per pixel.
#[verifier::external_body]
fn decode_jpeg(bytes: &[u8]) -> (r: Option<RawFrame>)
    ensures
        match r {
            Some(f) => jpeg_decoding(bytes@) == Some((f.width, f.height, f.data@)) && f.wf(),
            None => jpeg_decoding(bytes@) is None,
        },
{
    match image::load_from_memory_with_format(bytes, image::ImageFormat::Jpeg) {
        Ok(img) => {
            let rgba = img.to_rgba8();
            Some(RawFrame { width: rgba.width(), height: rgba.height(), data: rgba.into_raw() })
        },
        Err(_) => None,
    }
}

/// `s` with `src` written over it from `at`.
pub open spec fn overwrite(s: Seq<u8>, at: int, src: Seq<u8>) -> Seq<u8> {
    Seq::new(s.len(), |i: int| if at <= i < at + src.len() { src[i - at] } else { s[i] })
}

pub open spec fn min_of(a: int, b: int) -> int {
    if a < b { a } else { b }
}

/// Columns of a decoded block that land in the frame: at most the record's
/// width, the block's own width, and what is left of the frame's row.
pub open spec fn paste_width(fw: int, r: BlockRect, dw: int) -> int {
    if r.x >= fw { 0 } else { min_of(min_of(r.width as int, dw), fw - r.x) }
}

pub open spec fn paste_height(fh: int, r: BlockRect, dh: int) -> int {
    if r.y >= fh { 0 } else { min_of(min_of(r.height as int, dh), fh - r.y) }
}

/// The first `cw` pixels of row `row` of a decoded block `dw` pixels wide.
pub open spec fn block_row(px: Seq<u8>, dw: int, cw: int, row: int) -> Seq<u8> {
    Seq::new((cw * 4) as nat, |j: int| px[offset(dw, 0, row) + j])
}

/// The first `rows` rows of a decoded block (`dw` pixels wide) written over
/// a frame `fw` pixels wide, each cut to `cw` pixels.
pub open spec fn paste_rows(base: Seq<u8>, fw: int, r: BlockRect, cw: int, dw: int, px: Seq<u8>, rows: nat) -> Seq<u8>
    decreases rows,
{
    if rows == 0 {
        base
    } else {
        let row = rows - 1;
        overwrite(
            paste_rows(base, fw, r, cw, dw, px, (rows - 1) as nat),
            offset(fw, r.x as int, r.y + row),
            block_row(px, dw, cw, row),
        )
    }
}

/// A decoded block written into a `fw` × `fh` frame.
pub open spec fn paste(base: Seq<u8>, fw: int, fh: int, r: BlockRect, dw: int, dh: int, px: Seq<u8>) -> Seq<u8> {
    paste_rows(base, fw, r, paste_width(fw, r, dw), dw, px, paste_height(fh, r, dh) as nat)
}

/// The decoded images of the blocks, when each decodes.
pub open spec fn decoded_blocks(recs: Seq<BlockData>) -> Option<Seq<(u32, u32, Seq<u8>)>>
    decreases recs.len(),
{
    if recs.len() == 0 {
        Some(Seq::empty())
    } else {
        match (decoded_blocks(recs.drop_last()), jpeg_decoding(recs.last().data)) {
            (Some(ds), Some(d)) => Some(ds.push(d)),
            _ => None,
        }
    }
}

/// The blocks written into the frame one after the other.
pub open spec fn paste_all(base: Seq<u8>, fw: int, fh: int, recs: Seq<BlockData>, ds: Seq<(u32, u32, Seq<u8>)>) -> Seq<u8>
    decreases recs.len(),
{
    if recs.len() == 0 || ds.len() == 0 {
        base
    } else {
        let d = ds.last();
        paste(paste_all(base, fw, fh, recs.drop_last(), ds.drop_last()), fw, fh, recs.last().rect, d.0 as int, d.1 as int, d.2)
    }
}

/// The byte `i` of a `fw`-pixel-wide frame lies in one of the rows of the
/// rectangle.
pub open spec fn covers(fw: int, r: BlockRect, i: int) -> bool {
    exists|row: int| 0 <= row < r.height && #[trigger] offset(fw, r.x as int, r.y + row) <= i
        && i < offset(fw, r.x as int, r.y + row) + r.width * 4
}

proof fn lemma_paste_rows_outside(base: Seq<u8>, fw: int, r: BlockRect, cw: int, dw: int, px: Seq<u8>, rows: nat, i: int)
    requires
        0 <= cw <= r.width,
        rows <= r.height,
        0 <= i < base.len(),
        !covers(fw, r, i),
    ensures
        paste_rows(base, fw, r, cw, dw, px, rows).len() == base.len(),
        paste_rows(base, fw, r, cw, dw, px, rows)[i] == base[i],
    decreases rows,
{
    if rows > 0 {
        lemma_paste_rows_outside(base, fw, r, cw, dw, px, (rows - 1) as nat, i);
        let row = rows - 1;
        let at = offset(fw, r.x as int, r.y + row);
        let src = block_row(px, dw, cw, row);
        if at <= i < at + src.len() {
            assert(src.len() <= cw * 4);
            assert(covers(fw, r, i)) by {
                assert(0 <= row < r.height && at <= i && i < at + r.width * 4);
            }
        }
    }
}

/// Writing the decoded blocks of one delta frame into a frame leaves every
/// byte outside all of their rectangles as it was.
pub proof fn lemma_paste_all_outside(base: Seq<u8>, fw: int, fh: int, recs: Seq<BlockData>, ds: Seq<(u32, u32, Seq<u8>)>, i: int)
    requires
        0 <= i < base.len(),
        forall|k: int| 0 <= k < recs.len() ==> !covers(fw, #[trigger] recs[k].rect, i),
    ensures
        paste_all(base, fw, fh, recs, ds).len() == base.len(),
        paste_all(base, fw, fh, recs, ds)[i] == base[i],
    decreases recs.len(),
{
    if recs.len() > 0 && ds.len() > 0 {
        let d = ds.last();
        let r = recs.last().rect;
        assert forall|k: int| 0 <= k < recs.drop_last().len() implies !covers(fw, #[trigger] recs.drop_last()[k].rect, i) by {
            assert(recs.drop_last()[k] == recs[k]);
        }
        lemma_paste_all_outside(base, fw, fh, recs.drop_last(), ds.drop_last(), i);
        assert(!covers(fw, recs[recs.len() - 1].rect, i));
        let cw = paste_width(fw, r, d.0 as int);
        let ch = paste_height(fh, r, d.1 as int);
        lemma_paste_rows_outside(paste_all(base, fw, fh, recs.drop_last(), ds.drop_last()), fw, r, cw, d.0 as int, d.2, ch as nat, i);
    }
}

/// The frame after a sequence of decoded delta frames, each its blocks and
/// their images; a frame without blocks is a no-change frame.
pub open spec fn paste_steps(base: Seq<u8>, fw: int, fh: int, steps: Seq<(Seq<BlockData>, Seq<(u32, u32, Seq<u8>)>)>) -> Seq<u8>
    decreases steps.len(),
{
    if steps.len() == 0 {
        base
    } else {
        let last = steps.last();
        paste_all(paste_steps(base, fw, fh, steps.drop_last()), fw, fh, last.0, last.1)
    }
}

/// After a full frame and any sequence of delta and no-change frames, every
/// byte outside the rectangles of all the deltas still holds the full
/// frame's value.
pub proof fn lemma_paste_steps_outside(base: Seq<u8>, fw: int, fh: int, steps: Seq<(Seq<BlockData>, Seq<(u32, u32, Seq<u8>)>)>, i: int)
    requires
        0 <= i < base.len(),
        forall|s: int, k: int| 0 <= s < steps.len() && 0 <= k < steps[s].0.len() ==> !covers(fw, #[trigger] steps[s].0[k].rect, i),
    ensures
        paste_steps(base, fw, fh, steps).len() == base.len(),
        paste_steps(base, fw, fh, steps)[i] == base[i],
    decreases steps.len(),
{
    if steps.len() > 0 {
        let prefix = steps.drop_last();
        assert forall|s: int, k: int| 0 <= s < prefix.len() && 0 <= k < prefix[s].0.len()
            implies !covers(fw, #[trigger] prefix[s].0[k].rect, i) by {
            assert(prefix[s] == steps[s]);
        }
        lemma_paste_steps_outside(base, fw, fh, prefix, i);
        let last = steps.last();
        assert forall|k: int| 0 <= k < last.0.len() implies !covers(fw, #[trigger] last.0[k].rect, i) by {
            assert(last == steps[steps.len() - 1]);
        }
        lemma_paste_all_outside(paste_steps(base, fw, fh, prefix), fw, fh, last.0, last.1, i);
    }
}

/// The frame that follows `base` (`fw` × `fh`) once the encoded bytes are applied.
pub open spec fn next_frame(fw: u32, fh: u32, base: Seq<u8>, bytes: Seq<u8>) -> Option<(u32, u32, Seq<u8>)> {
    match parse_frame(bytes) {
        None => None,
        Some(ParsedFrame::NoChange) => Some((fw, fh, base)),
        Some(ParsedFrame::Full(img)) => jpeg_decoding(img),
        Some(ParsedFrame::Delta(recs)) => match decoded_blocks(recs) {
            Some(ds) => Some((fw, fh, paste_all(base, fw as int, fh as int, recs, ds))),
            None => None,
        },
    }
}


fn read_u32(b: &[u8], at: usize) -> (r: u32)
    requires
        at + 4 <= b@.len(),
    ensures
        r as nat == read_le(b@, at as int, 4),
{
    proof {
        reveal_with_fuel(read_le, 5);
    }
    let v: u64 = b[at] as u64 + 256 * (b[at + 1] as u64 + 256 * (b[at + 2] as u64 + 256 * (b[at + 3] as u64)));
    v as u32
}

proof fn lemma_decoded_prefix_none(recs: Seq<BlockData>, k: int)
    requires
        0 <= k <= recs.len(),
        decoded_blocks(recs.subrange(0, k)) is None,
    ensures
        decoded_blocks(recs) is None,
    decreases recs.len() - k,
{
    if k == recs.len() {
        assert(recs.subrange(0, k) =~= recs);
    } else {
        assert(recs.drop_last().subrange(0, k) =~= recs.subrange(0, k));
        lemma_decoded_prefix_none(recs.drop_last(), k);
    }
}

proof fn lemma_paste_rows_empty(base: Seq<u8>, fw: int, r: BlockRect, dw: int, px: Seq<u8>, rows: nat)
    ensures
        paste_rows(base, fw, r, 0, dw, px, rows) == base,
    decreases rows,
{
    if rows > 0 {
        lemma_paste_rows_empty(base, fw, r, dw, px, (rows - 1) as nat);
        let row = rows - 1;
        assert(overwrite(base, offset(fw, r.x as int, r.y + row), block_row(px, dw, 0, row)) =~= base);
    }
}

proof fn lemma_decoded_len(recs: Seq<BlockData>)
    ensures
        decoded_blocks(recs) is Some ==> decoded_blocks(recs)->Some_0.len() == recs.len(),
    decreases recs.len(),
{
    if recs.len() > 0 {
        lemma_decoded_len(recs.drop_last());
    }
}

proof fn lemma_paste_rows_len(base: Seq<u8>, fw: int, r: BlockRect, cw: int, dw: int, px: Seq<u8>, rows: nat)
    ensures
        paste_rows(base, fw, r, cw, dw, px, rows).len() == base.len(),
    decreases rows,
{
    if rows > 0 {
        lemma_paste_rows_len(base, fw, r, cw, dw, px, (rows - 1) as nat);
    }
}

proof fn lemma_paste_all_len(base: Seq<u8>, fw: int, fh: int, recs: Seq<BlockData>, ds: Seq<(u32, u32, Seq<u8>)>)
    ensures
        paste_all(base, fw, fh, recs, ds).len() == base.len(),
    decreases recs.len(),
{
    if recs.len() > 0 && ds.len() > 0 {
        lemma_paste_all_len(base, fw, fh, recs.drop_last(), ds.drop_last());
        let d = ds.last();
        let r = recs.last().rect;
        lemma_paste_rows_len(paste_all(base, fw, fh, recs.drop_last(), ds.drop_last()), fw, r,
            paste_width(fw, r, d.0 as int), d.0 as int, d.2, paste_height(fh, r, d.1 as int) as nat);
    }
}

/// Writes a decoded block into the frame at the block's rectangle.
fn paste_block(frame: &mut RawFrame, r: BlockRect, block: &RawFrame)
    requires
        old(frame).wf(),
        block.wf(),
    ensures
        final(frame).width == old(frame).width,
        final(frame).height == old(frame).height,
        final(frame).data@ == paste(old(frame).data@, old(frame).width as int, old(frame).height as int, r,
            block.width as int, block.height as int, block.data@),
        final(frame).wf(),
{
    let fw = frame.width;
    let fh = frame.height;
    let dw = block.width;
    let cw: u32 = if r.x >= fw { 0 } else {
        let a = if r.width < dw { r.width } else { dw };
        if a < fw - r.x { a } else { fw - r.x }
    };
    let ch: u32 = if r.y >= fh { 0 } else {
        let a = if r.height < block.height { r.height } else { block.height };
        if a < fh - r.y { a } else { fh - r.y }
    };
    let ghost base = frame.data@;
    let ghost px = block.data@;
    if cw == 0 {
        proof {
            lemma_paste_rows_empty(base, fw as int, r, dw as int, px, ch as nat);
        }
        return;
    }
    let len = frame.data.len();
    let blen = block.data.len();
    let mut row: u32 = 0;
    while row < ch
        invariant
            row <= ch,
            frame.width == fw,
            frame.height == fh,
            frame.wf(),
            block.wf(),
            dw == block.width,
            px == block.data@,
            len == frame.data@.len(),
            blen == px.len(),
            cw == paste_width(fw as int, r, dw as int),
            ch == paste_height(fh as int, r, block.height as int),
            r.x + cw <= fw,
            cw <= dw,
            ch == 0 || r.y + ch <= fh,
            ch <= block.height,
            frame.data@ == paste_rows(base, fw as int, r, cw as int, dw as int, px, row as nat),
        decreases ch - row,
    {
        let y = r.y + row;
        proof {
            assert(offset(fw as int, r.x as int, y as int) + cw * 4 <= fw * fh * 4) by (nonlinear_arith)
                requires r.x + cw <= fw, y < fh;
            assert(0 <= offset(fw as int, r.x as int, y as int)) by (nonlinear_arith)
                requires y >= 0, fw >= 0;
            assert(offset(dw as int, 0, row as int) + cw * 4 <= dw * block.height * 4) by (nonlinear_arith)
                requires cw <= dw, row < block.height;
            assert(0 <= offset(dw as int, 0, row as int)) by (nonlinear_arith)
                requires row >= 0, dw >= 0;
        }
        let at: usize = ((y as usize) * (fw as usize) + (r.x as usize)) * 4;
        let src: usize = (row as usize) * (dw as usize) * 4;
        let n: usize = (cw as usize) * 4;
        let ghost prev = frame.data@;
        let mut j: usize = 0;
        while j < n
            invariant
                j <= n,
                n == cw * 4,
                at + n <= len,
                src + n <= blen,
                at == offset(fw as int, r.x as int, y as int),
                src == offset(dw as int, 0, row as int),
                len == frame.data@.len(),
                blen == px.len(),
                px == block.data@,
                frame.width == fw,
                frame.height == fh,
                forall|t: int| 0 <= t < len ==> #[trigger] frame.data@[t] == if at <= t < at + j { px[src + t - at] } else { prev[t] },
            decreases n - j,
        {
            let v = block.data[src + j];
            frame.data[at + j] = v;
            j = j + 1;
        }
        proof {
            let next = overwrite(prev, at as int, block_row(px, dw as int, cw as int, row as int));
            assert(frame.data@ =~= next);
        }
        row = row + 1;
    }
    proof {
        lemma_paste_rows_len(base, fw as int, r, cw as int, dw as int, px, ch as nat);
    }
}

/// A block of a delta frame once decoded.
struct DecodedBlock {
    rect: BlockRect,
    image: RawFrame,
}

/// Applies an encoded frame to the previous decoded frame: a header alone
/// leaves it as it is, a full frame replaces it, a delta frame writes its
/// blocks into it. Fails, leaving the frame as it was, when the bytes are
/// not a frame or an image in them does not decode.
pub fn decode_frame(frame: &mut RawFrame, bytes: &[u8]) -> (r: Result<(), CodecError>)
    requires
        old(frame).wf(),
    ensures
        final(frame).wf(),
        match next_frame(old(frame).width, old(frame).height, old(frame).data@, bytes@) {
            Some((w, h, d)) => r is Ok && final(frame).width == w && final(frame).height == h && final(frame).data@ == d,
            None => r is Err && final(frame).width == old(frame).width && final(frame).height == old(frame).height
                && final(frame).data@ == old(frame).data@,
        },
{
    let len = bytes.len();
    if len < 13 {
        return Err(CodecError::DecodeFailed);
    }
    let kind = bytes[0];
    if kind == 2 {
        return Ok(());
    }
    if kind == 0 {
        let payload = vstd::slice::slice_subrange(bytes, 13, len);
        return match decode_jpeg(payload) {
            Some(img) => {
                *frame = img;
                Ok(())
            },
            None => Err(CodecError::DecodeFailed),
        };
    }
    if kind != 1 {
        return Err(CodecError::DecodeFailed);
    }
    let count = read_u32(bytes, 1);
    let ghost b = bytes@;
    let ghost total = records_from(b, 13, count as nat);
    let mut blocks: Vec<DecodedBlock> = Vec::new();
    let ghost mut done: Seq<BlockData> = Seq::empty();
    let ghost mut ds: Seq<(u32, u32, Seq<u8>)> = Seq::empty();
    let mut pos: usize = 13;
    let mut k: u32 = 0;
    while k < count
        invariant
            k <= count,
            13 <= pos <= len,
            len == b.len(),
            b == bytes@,
            total == records_from(b, 13, count as nat),
            count as nat == read_le(b, 1, 4),
            b[0] == 1,
            total == match records_from(b, pos as int, (count - k) as nat) {
                Some(rest) => Some(done + rest),
                None => None::<Seq<BlockData>>,
            },
            done.len() == k,
            ds.len() == k,
            frame.wf(),
            frame.width == old(frame).width,
            frame.height == old(frame).height,
            frame.data@ == old(frame).data@,
            decoded_blocks(done) == Some(ds),
            blocks@.len() == k,
            forall|i: int| 0 <= i < k ==> {
                &&& (#[trigger] blocks@[i]).rect == done[i].rect
                &&& blocks@[i].image.wf()
                &&& ds[i] == (blocks@[i].image.width, blocks@[i].image.height, blocks@[i].image.data@)
            },
        decreases count - k,
    {
        if len - pos < 20 {
            proof {
                assert(records_from(b, pos as int, (count - k) as nat) is None);
            }
            return Err(CodecError::DecodeFailed);
        }
        let size = read_u32(bytes, pos + 16);
        if ((len - pos - 20) as u64) < (size as u64) {
            proof {
                assert(records_from(b, pos as int, (count - k) as nat) is None);
            }
            return Err(CodecError::DecodeFailed);
        }
        let rect = BlockRect {
            x: read_u32(bytes, pos),
            y: read_u32(bytes, pos + 4),
            width: read_u32(bytes, pos + 8),
            height: read_u32(bytes, pos + 12),
        };
        let data = vstd::slice::slice_subrange(bytes, pos + 20, pos + 20 + size as usize);
        let ghost rec = BlockData { rect, data: data@ };
        let ghost rest_after = records_from(b, pos + 20 + size, (count - k - 1) as nat);
        proof {
            assert(records_from(b, pos as int, (count - k) as nat) == match rest_after {
                Some(rest) => Some(seq![rec] + rest),
                None => None::<Seq<BlockData>>,
            });
            match rest_after {
                Some(rest) => {
                    assert(done + (seq![rec] + rest) =~= done.push(rec) + rest);
                },
                None => {},
            }
        }
        match decode_jpeg(data) {
            Some(img) => {
                proof {
                    let nd = done.push(rec);
                    assert(nd.drop_last() =~= done);
                    done = nd;
                    ds = ds.push((img.width, img.height, img.data@));
                }
                blocks.push(DecodedBlock { rect, image: img });
            },
            None => {
                proof {
                    let nd = done.push(rec);
                    assert(nd.drop_last() =~= done);
                    match rest_after {
                        Some(rest) => {
                            assert((nd + rest).subrange(0, k + 1) =~= nd);
                            lemma_decoded_prefix_none(nd + rest, k + 1);
                        },
                        None => {},
                    }
                }
                return Err(CodecError::DecodeFailed);
            },
        }
        pos = pos + 20 + size as usize;
        k = k + 1;
    }
    proof {
        assert(records_from(b, pos as int, 0) == Some(Seq::<BlockData>::empty()));
        assert(done + Seq::<BlockData>::empty() =~= done);
    }
    let ghost fw = frame.width;
    let ghost fh = frame.height;
    let ghost base = frame.data@;
    let mut i: usize = 0;
    while i < blocks.len()
        invariant
            i <= blocks@.len(),
            blocks@.len() == done.len(),
            ds.len() == done.len(),
            frame.wf(),
            frame.width == fw,
            frame.height == fh,
            forall|t: int| 0 <= t < blocks@.len() ==> {
                &&& (#[trigger] blocks@[t]).rect == done[t].rect
                &&& blocks@[t].image.wf()
                &&& ds[t] == (blocks@[t].image.width, blocks@[t].image.height, blocks@[t].image.data@)
            },
            frame.data@ == paste_all(base, fw as int, fh as int, done.subrange(0, i as int), ds.subrange(0, i as int)),
        decreases blocks@.len() - i,
    {
        proof {
            assert(done.subrange(0, i + 1).drop_last() =~= done.subrange(0, i as int));
            assert(ds.subrange(0, i + 1).drop_last() =~= ds.subrange(0, i as int));
        }
        paste_block(frame, blocks[i].rect, &blocks[i].image);
        i = i + 1;
    }
    proof {
        assert(done.subrange(0, i as int) =~= done);
        assert(ds.subrange(0, i as int) =~= ds);
    }
    Ok(())
}

} // verus!
