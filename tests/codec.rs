use anyviewer::delta::{decode_frame, CodecError, CompressionType, Compressor, RawFrame};

fn solid(width: u32, height: u32, rgba: [u8; 4]) -> RawFrame {
    let mut data = Vec::with_capacity((width * height * 4) as usize);
    for _ in 0..width * height {
        data.extend_from_slice(&rgba);
    }
    RawFrame { width, height, data }
}

fn paint_block(frame: &mut RawFrame, x: u32, y: u32, rgba: [u8; 4]) {
    for dy in 0..16 {
        for dx in 0..16 {
            let i = (((y + dy) * frame.width + x + dx) * 4) as usize;
            frame.data[i..i + 4].copy_from_slice(&rgba);
        }
    }
}

fn read_u32(b: &[u8], at: usize) -> u32 {
    u32::from_le_bytes([b[at], b[at + 1], b[at + 2], b[at + 3]])
}

#[test]
fn identical_frames_give_a_no_change_header() {
    let codec = Compressor::new(75, CompressionType::JPEG, false);
    let f1 = solid(320, 240, [10, 20, 30, 255]);
    let f2 = solid(320, 240, [10, 20, 30, 255]);
    let out = codec.compress_frame_delta(&f2, Some(&f1), 1234).unwrap();
    assert_eq!(out.len(), 13);
    assert_eq!(out[0], 2);
    assert_eq!(read_u32(&out, 1), 0);
    assert_eq!(u64::from_le_bytes(out[5..13].try_into().unwrap()), 1234);
}

#[test]
fn one_changed_block_gives_a_delta_of_that_block() {
    let codec = Compressor::new(75, CompressionType::JPEG, false);
    let f1 = solid(320, 240, [10, 20, 30, 255]);
    let mut f2 = solid(320, 240, [10, 20, 30, 255]);
    paint_block(&mut f2, 48, 32, [200, 200, 200, 255]);
    let out = codec.compress_frame_delta(&f2, Some(&f1), 7).unwrap();
    assert_eq!(out[0], 1);
    assert_eq!(read_u32(&out, 1), 1);
    assert_eq!(read_u32(&out, 13), 48);
    assert_eq!(read_u32(&out, 17), 32);
    assert_eq!(read_u32(&out, 21), 16);
    assert_eq!(read_u32(&out, 25), 16);
    let size = read_u32(&out, 29) as usize;
    assert_eq!(out.len(), 33 + size);
}

#[test]
fn small_changes_below_the_threshold_are_ignored() {
    let codec = Compressor::new(75, CompressionType::JPEG, false);
    let f1 = solid(64, 64, [10, 20, 30, 255]);
    let mut f2 = solid(64, 64, [10, 20, 30, 255]);
    paint_block(&mut f2, 0, 0, [20, 30, 40, 255]);
    let out = codec.compress_frame_delta(&f2, Some(&f1), 0).unwrap();
    assert_eq!(out[0], 2);
}

#[test]
fn many_changed_blocks_or_new_sizes_give_a_full_frame() {
    let codec = Compressor::new(75, CompressionType::JPEG, false);
    let f1 = solid(32, 32, [0, 0, 0, 255]);
    let f2 = solid(32, 32, [255, 255, 255, 255]);
    let out = codec.compress_frame_delta(&f2, Some(&f1), 0).unwrap();
    assert_eq!(out[0], 0);
    let f3 = solid(48, 32, [0, 0, 0, 255]);
    assert_eq!(codec.compress_frame_delta(&f3, Some(&f1), 0).unwrap()[0], 0);
    assert_eq!(codec.compress_frame_delta(&f3, None, 0).unwrap()[0], 0);
}

#[test]
fn encoding_is_deterministic_and_decodes_close_to_the_input() {
    let codec = Compressor::new(90, CompressionType::JPEG, false);
    let f = solid(64, 48, [120, 60, 200, 255]);
    let a = codec.compress_frame(&f, 99).unwrap();
    let b = codec.compress_frame(&f, 99).unwrap();
    assert_eq!(a, b);
    let mut out = RawFrame { width: 0, height: 0, data: Vec::new() };
    decode_frame(&mut out, &a).unwrap();
    assert_eq!((out.width, out.height), (64, 48));
    for (x, y) in out.data.iter().zip(f.data.iter()) {
        assert!((*x as i32 - *y as i32).abs() <= 8);
    }
}

#[test]
fn deltas_change_only_their_rectangles() {
    let codec = Compressor::new(90, CompressionType::JPEG, false);
    let f1 = solid(64, 64, [10, 10, 10, 255]);
    let mut f2 = solid(64, 64, [10, 10, 10, 255]);
    paint_block(&mut f2, 16, 16, [250, 250, 250, 255]);
    let full = codec.compress_frame(&f1, 0).unwrap();
    let delta = codec.compress_frame_delta(&f2, Some(&f1), 1).unwrap();
    assert_eq!(delta[0], 1);
    let mut shown = RawFrame { width: 0, height: 0, data: Vec::new() };
    decode_frame(&mut shown, &full).unwrap();
    let after_full = shown.data.clone();
    decode_frame(&mut shown, &delta).unwrap();
    let no_change = codec.compress_frame_delta(&f2, Some(&f2), 2).unwrap();
    decode_frame(&mut shown, &no_change).unwrap();
    for y in 0..64u32 {
        for x in 0..64u32 {
            let i = ((y * 64 + x) * 4) as usize;
            let inside = (16..32).contains(&x) && (16..32).contains(&y);
            if inside {
                assert!(shown.data[i] > 200);
            } else {
                assert_eq!(&shown.data[i..i + 4], &after_full[i..i + 4]);
            }
        }
    }
}

#[test]
fn malformed_frames_are_rejected_and_leave_the_frame() {
    let mut shown = solid(4, 4, [1, 2, 3, 4]);
    let before = shown.data.clone();
    assert_eq!(decode_frame(&mut shown, &[1, 2, 3]), Err(CodecError::DecodeFailed));
    assert_eq!(decode_frame(&mut shown, &[7; 13]), Err(CodecError::DecodeFailed));
    let mut truncated = vec![1u8, 1, 0, 0, 0];
    truncated.extend_from_slice(&[0; 8]);
    truncated.extend_from_slice(&[0; 10]);
    assert_eq!(decode_frame(&mut shown, &truncated), Err(CodecError::DecodeFailed));
    let mut bad_image = vec![0u8; 13];
    bad_image.extend_from_slice(&[1, 2, 3]);
    assert_eq!(decode_frame(&mut shown, &bad_image), Err(CodecError::DecodeFailed));
    assert_eq!(shown.data, before);
}

#[test]
fn empty_images_and_bad_qualities_are_refused() {
    let mut codec = Compressor::new(75, CompressionType::WebP, true);
    let empty = RawFrame { width: 0, height: 0, data: Vec::new() };
    assert_eq!(codec.compress_frame(&empty, 0), Err(CodecError::EncodeFailed));
    assert!(codec.set_quality(0).is_err());
    assert!(codec.set_quality(101).is_err());
    assert!(codec.set_quality(50).is_ok());
    assert_eq!(codec.get_compression_info().quality, 50);
}
