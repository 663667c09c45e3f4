use remap::element::{Remap, RemapError, Settings};
use remap::format::{formats_of_kind, image_kind, pixel_size, supported_formats, PixelFormat, PixelKind};
use remap::maps::{prepare, DisplacementMap, FixedPoint, LookupTable, PrepError};
use remap::negotiate::{adjust_candidate, negotiate, Candidate, Direction, Memo};
use remap::transform::{remap_frame, FrameGeometry, TransformError};

fn map_of(width: usize, height: usize, values: Vec<i32>) -> DisplacementMap {
    DisplacementMap { width, height, values }
}

fn empty_map() -> DisplacementMap {
    map_of(0, 0, Vec::new())
}

/// Maps whose entry at (x, y) is the pixel position given by `f`, in 1/32 units.
fn maps_from(width: usize, height: usize, f: impl Fn(i32, i32) -> (i32, i32)) -> (DisplacementMap, DisplacementMap) {
    let mut xs = Vec::new();
    let mut ys = Vec::new();
    for y in 0..height as i32 {
        for x in 0..width as i32 {
            let (sx, sy) = f(x, y);
            xs.push(sx);
            ys.push(sy);
        }
    }
    (map_of(width, height, xs), map_of(width, height, ys))
}

fn geometry(width: usize, height: usize, format: PixelFormat, stride: usize) -> FrameGeometry {
    FrameGeometry { width, height, format, stride }
}

fn sized(w: i32, h: i32) -> Candidate {
    Candidate { width: Some(w), height: Some(h) }
}

fn table_of(width: usize, height: usize) -> LookupTable {
    let (mx, my) = maps_from(width, height, |x, y| (x * 32, y * 32));
    prepare(&mx, &my).unwrap()
}

#[test]
fn identity_map_copies_gray8_frame() {
    let (mx, my) = maps_from(4, 4, |x, y| (x * 32, y * 32));
    let mut r = Remap::new();
    r.start(&mx, &my).unwrap();
    let g = geometry(4, 4, PixelFormat::Gray8, 4);
    r.set_caps(g, g).unwrap();
    let input: Vec<u8> = (0..16u8).map(|v| v * 13 + 7).collect();
    let mut output = vec![0u8; 16];
    assert_eq!(r.transform(&input, &mut output), Ok(()));
    assert_eq!(output, input);
}

#[test]
fn absent_maps_give_not_negotiated() {
    let mut r = Remap::new();
    r.start(&empty_map(), &empty_map()).unwrap();
    let g = geometry(4, 4, PixelFormat::Gray8, 4);
    r.set_caps(g, g).unwrap();
    let input = vec![1u8; 16];
    let mut output = vec![9u8; 16];
    assert_eq!(r.transform(&input, &mut output), Err(RemapError::NotNegotiated));
    assert_eq!(output, vec![9u8; 16]);
}

#[test]
fn one_absent_map_gives_empty_table() {
    let (mx, _) = maps_from(3, 2, |x, y| (x, y));
    let t = prepare(&mx, &empty_map()).unwrap();
    assert!(t.is_empty());
    assert_eq!((t.width, t.height), (0, 0));
}

#[test]
fn transform_before_start_or_caps_is_not_negotiated() {
    let mut r = Remap::new();
    let mut output = vec![0u8; 4];
    assert_eq!(r.transform(&vec![0u8; 4], &mut output), Err(RemapError::NotNegotiated));
    let (mx, my) = maps_from(2, 2, |x, y| (x * 32, y * 32));
    r.start(&mx, &my).unwrap();
    assert_eq!(r.transform(&vec![0u8; 4], &mut output), Err(RemapError::NotNegotiated));
    r.stop();
    let g = geometry(2, 2, PixelFormat::Gray8, 2);
    assert_eq!(r.set_caps(g, g), Err(RemapError::NotNegotiated));
    assert_eq!(r.transform(&vec![0u8; 4], &mut output), Err(RemapError::NotNegotiated));
}

#[test]
fn negotiation_sticks_sink_size() {
    let t = table_of(800, 600);
    let mut memo = Memo::new();
    let up = negotiate(&vec![sized(640, 480)], Direction::TowardSource, &t, &mut memo);
    assert_eq!(up, vec![sized(800, 600)]);
    let down = negotiate(&vec![sized(1920, 1080)], Direction::TowardDownstream, &t, &mut memo);
    assert_eq!(down, vec![sized(640, 480)]);
}

#[test]
fn element_negotiation_scenario() {
    let (mx, my) = maps_from(800, 600, |x, y| (x * 32, y * 32));
    let mut r = Remap::new();
    r.start(&mx, &my).unwrap();
    let up = r.transform_caps(&vec![sized(640, 480)], Direction::TowardSource);
    assert_eq!(up, Ok(vec![sized(800, 600)]));
    let down = r.transform_caps(&vec![sized(1920, 1080)], Direction::TowardDownstream);
    assert_eq!(down, Ok(vec![sized(640, 480)]));
}

#[test]
fn downstream_without_memo_passes_through() {
    let t = table_of(8, 6);
    let mut memo = Memo::new();
    let down = negotiate(&vec![sized(1920, 1080)], Direction::TowardDownstream, &t, &mut memo);
    assert_eq!(down, vec![sized(1920, 1080)]);
    assert_eq!(memo, Memo::new());
}

#[test]
fn unsized_candidate_passes_through() {
    let t = table_of(8, 6);
    let mut memo = Memo::new();
    let c = Candidate { width: Some(5), height: None };
    assert_eq!(adjust_candidate(c, Direction::TowardSource, &t, &mut memo), c);
    assert_eq!(memo, Memo::new());
}

#[test]
fn empty_table_leaves_source_size() {
    let t = LookupTable::empty();
    let mut memo = Memo::new();
    let up = negotiate(&vec![sized(640, 480)], Direction::TowardSource, &t, &mut memo);
    assert_eq!(up, vec![sized(640, 480)]);
    assert_eq!(memo, Memo { sink_width: 640, sink_height: 480 });
}

#[test]
fn last_sized_candidate_is_recorded() {
    let t = table_of(8, 6);
    let mut memo = Memo::new();
    let cands = vec![sized(10, 20), sized(30, 40), Candidate { width: None, height: Some(1) }];
    let up = negotiate(&cands, Direction::TowardSource, &t, &mut memo);
    assert_eq!(up, vec![sized(8, 6), sized(8, 6), Candidate { width: None, height: Some(1) }]);
    assert_eq!(memo, Memo { sink_width: 30, sink_height: 40 });
}

#[test]
fn negotiation_is_idempotent() {
    let t = table_of(8, 6);
    for dir in [Direction::TowardSource, Direction::TowardDownstream] {
        let mut memo = Memo { sink_width: 3, sink_height: 0 };
        let cands = vec![sized(100, 50), Candidate { width: None, height: None }];
        let first = negotiate(&cands, dir, &t, &mut memo);
        let memo_after = memo;
        let second = negotiate(&cands, dir, &t, &mut memo);
        assert_eq!(first, second);
        assert_eq!(memo, memo_after);
    }
}

#[test]
fn negotiation_before_start_passes_through_and_after_stop_fails() {
    let mut r = Remap::new();
    let cands = vec![sized(640, 480), Candidate { width: None, height: Some(3) }];
    assert_eq!(r.transform_caps(&cands, Direction::TowardSource), Ok(cands.clone()));
    let (mx, my) = maps_from(2, 2, |x, y| (x * 32, y * 32));
    r.start(&mx, &my).unwrap();
    assert_eq!(
        r.transform_caps(&cands, Direction::TowardSource),
        Ok(vec![sized(2, 2), Candidate { width: None, height: Some(3) }])
    );
    r.stop();
    assert_eq!(r.transform_caps(&cands, Direction::TowardDownstream), Err(RemapError::NotNegotiated));
    r.start(&mx, &my).unwrap();
    assert_eq!(r.transform_caps(&cands, Direction::TowardDownstream), Ok(vec![sized(640, 480), cands[1]]));
}

#[test]
fn set_caps_refuses_short_rows() {
    let (mx, my) = maps_from(4, 1, |x, y| (x * 32, y * 32));
    let mut r = Remap::new();
    r.start(&mx, &my).unwrap();
    let good = geometry(4, 1, PixelFormat::Gray8, 4);
    let short = geometry(4, 1, PixelFormat::Gray8, 0);
    assert_eq!(r.set_caps(good, short), Err(RemapError::InvalidGeometry));
    assert_eq!(r.set_caps(geometry(2, 1, PixelFormat::Rgba, 7), good), Err(RemapError::InvalidGeometry));
    let mut out = vec![0u8; 4];
    assert_eq!(r.transform(&vec![1u8; 4], &mut out), Err(RemapError::NotNegotiated));
    assert_eq!(r.set_caps(good, good), Ok(()));
    assert_eq!(r.transform(&vec![1u8, 2, 3, 4], &mut out), Ok(()));
    assert_eq!(out, vec![1u8, 2, 3, 4]);
}

#[test]
fn prepare_keeps_map_dimensions() {
    let (mx, my) = maps_from(5, 3, |x, y| (x * 32 + 16, y * 32 + 8));
    let t = prepare(&mx, &my).unwrap();
    assert_eq!((t.width, t.height), (5, 3));
    assert_eq!(t.entries.len(), 15);
    assert_eq!(t.entries[7], FixedPoint { x: 2, y: 1, fx: 16, fy: 8 });
}

#[test]
fn prepare_splits_negative_coordinates_downward() {
    let mx = map_of(1, 1, vec![-1]);
    let my = map_of(1, 1, vec![-33]);
    let t = prepare(&mx, &my).unwrap();
    assert_eq!(t.entries[0], FixedPoint { x: -1, y: -2, fx: 31, fy: 31 });
}

#[test]
fn prepare_saturates_at_i16_range() {
    let mx = map_of(2, 1, vec![i32::MAX, i32::MIN]);
    let my = map_of(2, 1, vec![0, 32 * 40000]);
    let t = prepare(&mx, &my).unwrap();
    assert_eq!(t.entries[0], FixedPoint { x: 32767, y: 0, fx: 31, fy: 0 });
    assert_eq!(t.entries[1], FixedPoint { x: -32768, y: 32767, fx: 0, fy: 31 });
}

#[test]
fn prepare_rejects_mismatched_maps() {
    let (mx, _) = maps_from(3, 2, |x, y| (x, y));
    let (_, my) = maps_from(2, 3, |x, y| (x, y));
    assert_eq!(prepare(&mx, &my).err(), Some(PrepError::SizeMismatch));
    let short = map_of(3, 2, vec![0; 5]);
    assert_eq!(prepare(&mx, &short).err(), Some(PrepError::SizeMismatch));
}

#[test]
fn start_with_mismatched_maps_stays_idle() {
    let (mx, _) = maps_from(3, 2, |x, y| (x, y));
    let (_, my) = maps_from(2, 3, |x, y| (x, y));
    let mut r = Remap::new();
    assert_eq!(r.start(&mx, &my), Err(PrepError::SizeMismatch));
    assert!(!r.is_active());
}

fn remap_one(input: &Vec<u8>, ig: FrameGeometry, sx: i32, sy: i32, og: FrameGeometry) -> Vec<u8> {
    let t = prepare(&map_of(1, 1, vec![sx]), &map_of(1, 1, vec![sy])).unwrap();
    let mut out = vec![0xAAu8; og.stride * og.height];
    remap_frame(input, &ig, &mut out, &og, &t).unwrap();
    out
}

#[test]
fn last_row_and_column_read_in_bounds() {
    let input: Vec<u8> = (1..=16u8).collect();
    let ig = geometry(4, 4, PixelFormat::Gray8, 4);
    let og = geometry(1, 1, PixelFormat::Gray8, 1);
    assert_eq!(remap_one(&input, ig, 3 * 32, 3 * 32, og), vec![16]);
    assert_eq!(remap_one(&input, ig, 3 * 32, 0, og), vec![4]);
    assert_eq!(remap_one(&input, ig, 0, 3 * 32, og), vec![13]);
}

#[test]
fn one_beyond_edge_is_border() {
    let input = vec![200u8; 16];
    let ig = geometry(4, 4, PixelFormat::Gray8, 4);
    let og = geometry(1, 1, PixelFormat::Gray8, 1);
    assert_eq!(remap_one(&input, ig, 4 * 32, 0, og), vec![0]);
    assert_eq!(remap_one(&input, ig, -32, 32, og), vec![0]);
    assert_eq!(remap_one(&input, ig, 32, 4 * 32, og), vec![0]);
    assert_eq!(remap_one(&input, ig, 32, -32, og), vec![0]);
}

#[test]
fn half_pixel_interpolates() {
    let input = vec![0u8, 100];
    let ig = geometry(2, 1, PixelFormat::Gray8, 2);
    let og = geometry(1, 1, PixelFormat::Gray8, 1);
    // (512 * 0 + 512 * 100 + 512) / 1024
    assert_eq!(remap_one(&input, ig, 16, 0, og), vec![50]);
    // a quarter of the way: (768 * 0 + 256 * 100 + 512) / 1024
    assert_eq!(remap_one(&input, ig, 8, 0, og), vec![25]);
}

#[test]
fn half_pixel_past_last_column_mixes_border() {
    let input = vec![0u8, 100];
    let ig = geometry(2, 1, PixelFormat::Gray8, 2);
    let og = geometry(1, 1, PixelFormat::Gray8, 1);
    assert_eq!(remap_one(&input, ig, 32 + 16, 0, og), vec![50]);
}

#[test]
fn rgb_channels_interpolate_separately() {
    let input = vec![10u8, 20, 30, 110, 120, 130];
    let ig = geometry(2, 1, PixelFormat::Rgb, 6);
    let og = geometry(1, 1, PixelFormat::Bgr, 3);
    assert_eq!(remap_one(&input, ig, 16, 0, og), vec![60, 70, 80]);
}

#[test]
fn gray16_little_and_big_endian() {
    let le = vec![0x00u8, 0x01, 0x00, 0x03];
    let ig = geometry(2, 1, PixelFormat::Gray16Le, 4);
    let og = geometry(1, 1, PixelFormat::Gray16Le, 2);
    // halfway between 0x0100 and 0x0300 is 0x0200
    assert_eq!(remap_one(&le, ig, 16, 0, og), vec![0x00, 0x02]);
    let be = vec![0x12u8, 0x34];
    let ig = geometry(1, 1, PixelFormat::Gray16Be, 2);
    let og = geometry(1, 1, PixelFormat::Gray16Be, 2);
    assert_eq!(remap_one(&be, ig, 0, 0, og), vec![0x12, 0x34]);
}

#[test]
fn stride_padding_is_kept() {
    let (mx, my) = maps_from(2, 2, |x, y| ((1 - x) * 32, y * 32));
    let t = prepare(&mx, &my).unwrap();
    let input = vec![1u8, 2, 0xEE, 3, 4, 0xEE];
    let ig = geometry(2, 2, PixelFormat::Gray8, 3);
    let og = geometry(2, 2, PixelFormat::Gray8, 4);
    let mut out = vec![0x55u8; 9];
    assert_eq!(remap_frame(&input, &ig, &mut out, &og, &t), Ok(()));
    assert_eq!(out, vec![2, 1, 0x55, 0x55, 4, 3, 0x55, 0x55, 0x55]);
}

#[test]
fn short_buffer_fails_to_map() {
    let t = table_of(2, 2);
    let g = geometry(2, 2, PixelFormat::Gray8, 2);
    let mut out = vec![7u8; 3];
    assert_eq!(remap_frame(&vec![0u8; 4], &g, &mut out, &g, &t), Err(TransformError::BufferMapFailed));
    assert_eq!(out, vec![7u8; 3]);
    let mut out = vec![7u8; 4];
    assert_eq!(remap_frame(&vec![0u8; 3], &g, &mut out, &g, &t), Err(TransformError::BufferMapFailed));
}

#[test]
fn inconsistent_geometry_is_not_negotiated() {
    let t = table_of(2, 2);
    let g = geometry(2, 2, PixelFormat::Gray8, 2);
    let mut out = vec![0u8; 16];
    let bigger = geometry(3, 2, PixelFormat::Gray8, 3);
    assert_eq!(remap_frame(&vec![0u8; 4], &g, &mut out, &bigger, &t), Err(TransformError::NotNegotiated));
    let rgba = geometry(2, 2, PixelFormat::Rgba, 8);
    assert_eq!(remap_frame(&vec![0u8; 4], &g, &mut out, &rgba, &t), Err(TransformError::NotNegotiated));
    let narrow = geometry(2, 2, PixelFormat::Gray8, 1);
    assert_eq!(remap_frame(&vec![0u8; 4], &g, &mut out, &narrow, &t), Err(TransformError::NotNegotiated));
}

#[test]
fn settings_refused_while_active() {
    let mut r = Remap::new();
    assert_eq!(r.set_mapx("x.tiff".to_string()), Ok(()));
    assert_eq!(r.set_mapy("y.tiff".to_string()), Ok(()));
    assert_eq!(r.mapx(), "x.tiff");
    assert_eq!(r.mapy(), "y.tiff");
    assert!(r.settings.has_maps());
    r.start(&empty_map(), &empty_map()).unwrap();
    assert_eq!(r.set_mapx("other".to_string()), Err(RemapError::InvalidState));
    assert_eq!(r.mapx(), "x.tiff");
    r.stop();
    assert_eq!(r.set_mapx("other".to_string()), Ok(()));
}

#[test]
fn settings_without_both_maps() {
    let mut s = Settings::new();
    assert!(!s.has_maps());
    s.mapx = "x".to_string();
    assert!(!s.has_maps());
}

#[test]
fn formats_by_kind() {
    assert_eq!(formats_of_kind(PixelKind::U8C1), vec![PixelFormat::Gray8]);
    assert_eq!(formats_of_kind(PixelKind::U8C3), vec![PixelFormat::Rgb, PixelFormat::Bgr]);
    assert_eq!(formats_of_kind(PixelKind::U8C4).len(), 8);
    assert_eq!(formats_of_kind(PixelKind::U16C1), vec![PixelFormat::Gray16Le, PixelFormat::Gray16Be]);
    let all = supported_formats();
    assert_eq!(all.len(), 13);
    for f in all {
        assert!(formats_of_kind(image_kind(f)).contains(&f));
    }
    assert_eq!(image_kind(PixelFormat::Abgr), PixelKind::U8C4);
    assert_eq!(pixel_size(PixelKind::U16C1), 2);
    assert_eq!(pixel_size(PixelKind::U8C3), 3);
}
