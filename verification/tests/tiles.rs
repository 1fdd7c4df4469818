use raytrace_tiles::readback::ReadbackLayout;
use raytrace_tiles::stitch::TiledCapture;
use raytrace_tiles::tiling::{TilePlan, TileRect};

#[test]
fn plan_8k_fits_in_four_tiles() {
    let p = TilePlan::new(7680, 4320, 4096, 16384).unwrap();
    assert_eq!((p.tiles_x, p.tiles_y), (2, 2));
    assert_eq!((p.tile_w, p.tile_h), (3840, 2160));
    assert_eq!(p.tile_limit, 4096);
    assert_eq!(p.tile_count(), 4);
}

#[test]
fn plan_128k_rounds_tile_height_to_four() {
    let p = TilePlan::new(122880, 69120, 4096, 16384).unwrap();
    assert_eq!((p.tiles_x, p.tiles_y), (30, 17));
    assert_eq!((p.tile_w, p.tile_h), (4096, 4068));
    let last = p.tile(p.tile_count() - 1);
    assert_eq!(
        last,
        TileRect { index: 509, x0: 29 * 4096, y0: 16 * 4068, width: 4096, height: 69120 - 16 * 4068 }
    );
}

#[test]
fn plan_respects_device_limit() {
    let p = TilePlan::new(7680, 4320, 4096, 2048).unwrap();
    assert_eq!(p.tile_limit, 2048);
    assert_eq!((p.tiles_x, p.tiles_y), (4, 3));
    assert_eq!((p.tile_w, p.tile_h), (1920, 1440));
}

#[test]
fn plan_clamps_rounding_to_limit() {
    // 5 pixels in tiles of at most 2: three tiles, the even share 2 is kept
    // although it is not a multiple of four.
    let p = TilePlan::new(5, 3, 2, 100).unwrap();
    assert_eq!((p.tiles_x, p.tiles_y, p.tile_w, p.tile_h), (3, 2, 2, 2));
    // the even share 3 of a 9 pixel row with limit 5 rounds up to 4
    let q = TilePlan::new(9, 9, 5, 5).unwrap();
    assert_eq!((q.tiles_x, q.tile_w), (2, 5));
    let r = TilePlan::new(6, 6, 5, 5).unwrap();
    assert_eq!((r.tiles_x, r.tile_w), (2, 4));
}

#[test]
fn plan_refuses_degenerate_inputs() {
    assert!(TilePlan::new(0, 10, 16, 16).is_none());
    assert!(TilePlan::new(10, 0, 16, 16).is_none());
    assert!(TilePlan::new(10, 10, 0, 16).is_none());
    assert!(TilePlan::new(10, 10, 16, 0).is_none());
    // 4 * width overflows a u32
    assert!(TilePlan::new(1 << 30, 1, 4096, 4096).is_none());
    // width + limit - 1 overflows
    assert!(TilePlan::new(u32::MAX, 1, u32::MAX, u32::MAX).is_none());
}

#[test]
fn edge_tiles_are_clipped_to_the_image() {
    let p = TilePlan::new(5, 3, 2, 100).unwrap();
    assert_eq!(p.tile(0), TileRect { index: 0, x0: 0, y0: 0, width: 2, height: 2 });
    assert_eq!(p.tile(2), TileRect { index: 2, x0: 4, y0: 0, width: 1, height: 2 });
    assert_eq!(p.tile(3), TileRect { index: 3, x0: 0, y0: 2, width: 2, height: 1 });
    assert_eq!(p.tile(5), TileRect { index: 5, x0: 4, y0: 2, width: 1, height: 1 });
}

#[test]
fn every_pixel_lies_in_exactly_one_tile() {
    let p = TilePlan::new(13, 11, 5, 5).unwrap();
    let mut owners = vec![0u32; 13 * 11];
    for k in 0..p.tile_count() {
        let t = p.tile(k);
        for y in t.y0..t.y0 + t.height {
            for x in t.x0..t.x0 + t.width {
                owners[(y * 13 + x) as usize] += 1;
            }
        }
    }
    assert!(owners.iter().all(|&n| n == 1));
}

#[test]
fn readback_rows_are_padded_to_256_bytes() {
    let l = ReadbackLayout::new(10, 3).unwrap();
    assert_eq!(l.bytes_per_row, 40);
    assert_eq!(l.padded_bytes_per_row, 256);
    assert_eq!(l.buffer_size, 768);
    let l = ReadbackLayout::new(64, 2).unwrap();
    assert_eq!(l.padded_bytes_per_row, 256);
    let l = ReadbackLayout::new(65, 2).unwrap();
    assert_eq!(l.padded_bytes_per_row, 512);
    let l = ReadbackLayout::new(3840, 2160).unwrap();
    assert_eq!(l.padded_bytes_per_row, 15360);
    assert_eq!(l.buffer_size, 15360 * 2160);
}

#[test]
fn readback_layout_refuses_overflow() {
    assert!(ReadbackLayout::new(u32::MAX / 4, 1).is_none());
    assert!(ReadbackLayout::new(65536, 65536).is_none());
    assert!(ReadbackLayout::new(0, 5).is_some());
}

#[test]
fn unpad_drops_row_padding() {
    let l = ReadbackLayout::new(3, 2).unwrap();
    let mut data = vec![0xEEu8; 256 + 12];
    for i in 0..12 {
        data[i] = i as u8;
        data[256 + i] = 100 + i as u8;
    }
    let pixels = l.unpad(&data);
    let mut expected: Vec<u8> = (0..12).collect();
    expected.extend(100..112);
    assert_eq!(pixels, expected);
}

/// The byte that a test tile `k` renders at offset `i` of its buffer.
fn tile_pattern(k: u32, i: usize) -> u8 {
    (k as usize * 37 + i * 3) as u8
}

#[test]
fn stitched_image_holds_each_pixel_of_its_tile() {
    let (w, h) = (5u32, 3u32);
    let plan = TilePlan::new(w, h, 2, 100).unwrap();
    let (tw, th) = (plan.tile_w, plan.tile_h);
    let mut cap = TiledCapture::new(plan);
    let mut seen = 0;
    while let Some(t) = cap.next_tile() {
        assert_eq!(t.index, seen);
        let tile: Vec<u8> = (0..(tw * th * 4) as usize).map(|i| tile_pattern(t.index, i)).collect();
        cap.accept_tile(&tile);
        seen += 1;
    }
    assert_eq!(seen, 6);
    let img = cap.finish().unwrap();
    assert_eq!(img.0.dimensions(), (w, h));
    let raw = img.0.into_raw();
    assert_eq!(raw.len(), (w * h * 4) as usize);
    for y in 0..h {
        for x in 0..w {
            let k = (y / th) * 3 + x / tw;
            let local = (((y % th) * tw + x % tw) * 4) as usize;
            for c in 0..4usize {
                assert_eq!(raw[((y * w + x) * 4) as usize + c], tile_pattern(k, local + c));
            }
        }
    }
}

#[test]
fn tile_buffer_only_needs_its_kept_part() {
    // A tile buffer only needs to reach the last kept byte.
    let plan = TilePlan::new(3, 1, 2, 2).unwrap();
    assert_eq!((plan.tile_w, plan.tile_h), (2, 2));
    let mut cap = TiledCapture::new(plan);
    cap.accept_tile(&[1, 2, 3, 4, 5, 6, 7, 8]);
    // the second tile keeps one pixel: four bytes are enough
    cap.accept_tile(&[9, 10, 11, 12]);
    assert!(cap.next_tile().is_none());
    let raw = cap.finish().unwrap().0.into_raw();
    assert_eq!(raw, vec![1, 2, 3, 4, 5, 6, 7, 8, 9, 10, 11, 12]);
}

#[test]
fn partial_capture_leaves_missing_tiles_black() {
    let plan = TilePlan::new(4, 1, 2, 2).unwrap();
    let mut cap = TiledCapture::new(plan);
    cap.accept_tile(&[7u8; 8]);
    let next = cap.next_tile().unwrap();
    assert_eq!(next, TileRect { index: 1, x0: 2, y0: 0, width: 2, height: 1 });
    cap.accept_tile(&[9u8; 8]);
    let raw = cap.finish().unwrap().0.into_raw();
    assert_eq!(&raw[..8], &[7u8; 8]);
    assert_eq!(&raw[8..], &[9u8; 8]);
}

#[test]
fn readback_output_feeds_the_capture() {
    // Simulate the GPU: each tile's staging buffer holds padded rows whose
    // pixel bytes encode the image coordinates they were rendered for.
    let (w, h) = (70u32, 9u32);
    let plan = TilePlan::new(w, h, 64, 64).unwrap();
    assert_eq!((plan.tiles_x, plan.tiles_y, plan.tile_w, plan.tile_h), (2, 1, 36, 12));
    let layout = ReadbackLayout::new(plan.tile_w, plan.tile_h).unwrap();
    assert_eq!(layout.padded_bytes_per_row, 256);
    let mut cap = TiledCapture::new(plan);
    while let Some(t) = cap.next_tile() {
        let mut staging = vec![0xAAu8; layout.buffer_size as usize];
        for row in 0..layout.tile_h {
            for col in 0..layout.tile_w {
                let (x, y) = (t.x0 + col, t.y0 + row);
                let base = (row * layout.padded_bytes_per_row + col * 4) as usize;
                staging[base..base + 4].copy_from_slice(&[x as u8, y as u8, 0x11, 0xFF]);
            }
        }
        let pixels = layout.unpad(&staging);
        assert_eq!(pixels.len(), (layout.tile_w * layout.tile_h * 4) as usize);
        cap.accept_tile(&pixels);
    }
    let raw = cap.finish().unwrap().0.into_raw();
    for y in 0..h {
        for x in 0..w {
            let i = ((y * w + x) * 4) as usize;
            assert_eq!(&raw[i..i + 4], &[x as u8, y as u8, 0x11, 0xFF]);
        }
    }
}
