use crop_hypr::error::AppError;
use crop_hypr::geometry::ScreenRect;
use crop_hypr::hyprland::MonitorInfo;
use crop_hypr::pixels::{
    composite_frames, composite_ready_check, decode_frame, edges_fit_check, frame_fits_check, image_fits,
    find_monitor_index, frame_drawable_check, frame_to_image, monitors_bounds, monitors_origin,
    new_image, read_pixel_rgba, CapturedFrame, RgbaImage, ShmFormat, VideoFormat,
};

fn monitor(name: &str, x: i32, y: i32, w: i32, h: i32) -> MonitorInfo {
    MonitorInfo {
        rect: ScreenRect { x, y, w, h },
        name: name.to_string(),
        focused: false,
        active_workspace_id: 1,
    }
}

fn solid_frame(name: &str, w: u32, h: u32, bgrx: [u8; 4]) -> CapturedFrame {
    let mut data = Vec::new();
    for _ in 0..(w * h) {
        data.extend_from_slice(&bgrx);
    }
    CapturedFrame {
        name: name.to_string(),
        width: w,
        height: h,
        stride: w * 4,
        format: ShmFormat::Xrgb8888,
        data,
    }
}

#[test]
fn read_pixel_swaps_blue_and_red_for_argb() {
    let data = [1u8, 2, 3, 4, 5, 6, 7, 8];
    assert_eq!(read_pixel_rgba(&data, 0, ShmFormat::Argb8888), [3, 2, 1, 255]);
    assert_eq!(read_pixel_rgba(&data, 4, ShmFormat::Xrgb8888), [7, 6, 5, 255]);
    assert_eq!(read_pixel_rgba(&data, 0, ShmFormat::Other), [3, 2, 1, 255]);
}

#[test]
fn read_pixel_keeps_order_for_abgr() {
    let data = [1u8, 2, 3, 4];
    assert_eq!(read_pixel_rgba(&data, 0, ShmFormat::Abgr8888), [1, 2, 3, 255]);
    assert_eq!(read_pixel_rgba(&data, 0, ShmFormat::Xbgr8888), [1, 2, 3, 255]);
}

#[test]
fn frame_to_image_honours_stride() {
    // 2x2 frame, rows 12 bytes apart (4 bytes of padding per row).
    let data = vec![
        10u8, 20, 30, 0, 11, 21, 31, 0, 99, 99, 99, 99, //
        12, 22, 32, 0, 13, 23, 33, 0, 99, 99, 99, 99,
    ];
    let img = frame_to_image(2, 2, 12, ShmFormat::Xrgb8888, &data);
    let (w, h, bytes) = img.into_parts();
    assert_eq!((w, h), (2, 2));
    assert_eq!(
        bytes,
        vec![30, 20, 10, 255, 31, 21, 11, 255, 32, 22, 12, 255, 33, 23, 13, 255]
    );
}

#[test]
fn new_image_is_zeroed() {
    let img = new_image(3, 2);
    assert_eq!(img.width(), 3);
    assert_eq!(img.height(), 2);
    let (_, _, bytes) = img.into_parts();
    assert_eq!(bytes, vec![0u8; 24]);
}

#[test]
fn from_parts_needs_enough_bytes() {
    assert!(RgbaImage::from_parts(2, 2, vec![0u8; 15]).is_none());
    let img = RgbaImage::from_parts(2, 2, (0u8..16).collect()).unwrap();
    assert_eq!((img.width(), img.height()), (2, 2));
}

#[test]
fn crop_copies_the_region() {
    let img = RgbaImage::from_parts(3, 2, (0u8..24).collect()).unwrap();
    let c = img.crop(1, 1, 2, 1);
    let (w, h, bytes) = c.into_parts();
    assert_eq!((w, h), (2, 1));
    assert_eq!(bytes, vec![16, 17, 18, 19, 20, 21, 22, 23]);
}

#[test]
fn crop_is_clamped_to_the_image() {
    let img = RgbaImage::from_parts(3, 2, (0u8..24).collect()).unwrap();
    let c = img.crop(2, 0, 10, 10);
    let (w, h, bytes) = c.into_parts();
    assert_eq!((w, h), (1, 2));
    assert_eq!(bytes, vec![8, 9, 10, 11, 20, 21, 22, 23]);
}

#[test]
fn monitor_origin_and_bounds() {
    let ms = vec![monitor("A", 0, 0, 1920, 1080), monitor("B", -1280, 200, 1280, 1024)];
    assert_eq!(monitors_origin(&ms), (-1280, 0));
    assert_eq!(monitors_bounds(&ms), (-1280, 0, 1920, 1224));
}

#[test]
fn find_monitor_index_takes_the_first_match() {
    let ms = vec![monitor("A", 0, 0, 10, 10), monitor("B", 10, 0, 10, 10), monitor("B", 20, 0, 1, 1)];
    assert_eq!(find_monitor_index(&ms, &"B".to_string()), Some(1));
    assert_eq!(find_monitor_index(&ms, &"C".to_string()), None);
}

#[test]
fn composite_places_monitors_side_by_side() {
    let ms = vec![monitor("A", 0, 0, 2, 1), monitor("B", 2, 0, 1, 1)];
    let frames = vec![
        solid_frame("A", 2, 1, [1, 2, 3, 0]),
        solid_frame("B", 1, 1, [4, 5, 6, 0]),
    ];
    let img = composite_frames(&ms, &frames).unwrap();
    let (w, h, bytes) = img.into_parts();
    assert_eq!((w, h), (3, 1));
    assert_eq!(bytes, vec![3, 2, 1, 255, 3, 2, 1, 255, 6, 5, 4, 255]);
}

#[test]
fn composite_downsamples_hidpi_frames() {
    // A 1x1 logical monitor captured at 2x2 physical pixels: the top-left one is kept.
    let ms = vec![monitor("A", 5, 5, 1, 1)];
    let frame = CapturedFrame {
        name: "A".to_string(),
        width: 2,
        height: 2,
        stride: 8,
        format: ShmFormat::Abgr8888,
        data: vec![9, 8, 7, 0, 1, 1, 1, 0, 1, 1, 1, 0, 1, 1, 1, 0],
    };
    let img = composite_frames(&ms, &[frame]).unwrap();
    let (w, h, bytes) = img.into_parts();
    assert_eq!((w, h), (1, 1));
    assert_eq!(bytes, vec![9, 8, 7, 255]);
}

#[test]
fn composite_leaves_uncovered_pixels_black() {
    let ms = vec![monitor("A", 0, 0, 1, 1), monitor("B", 1, 1, 1, 1)];
    let frames = vec![solid_frame("A", 1, 1, [1, 2, 3, 0])];
    let img = composite_frames(&ms, &frames).unwrap();
    let (w, h, bytes) = img.into_parts();
    assert_eq!((w, h), (2, 2));
    assert_eq!(bytes, vec![3, 2, 1, 255, 0, 0, 0, 0, 0, 0, 0, 0, 0, 0, 0, 0]);
}

#[test]
fn composite_rejects_unknown_output() {
    let ms = vec![monitor("A", 0, 0, 1, 1)];
    let frames = vec![solid_frame("HDMI-9", 1, 1, [0, 0, 0, 0])];
    match composite_frames(&ms, &frames) {
        Err(AppError::Other(m)) => assert_eq!(m, "Monitor info missing for 'HDMI-9'"),
        other => panic!("unexpected: {:?}", other.map(|i| i.width())),
    }
}

#[test]
fn decode_bgrx_frame() {
    let data = vec![1u8, 2, 3, 0, 4, 5, 6, 0];
    let img = decode_frame(&data, 2, 1, 8, VideoFormat::Bgrx).unwrap();
    let (w, h, bytes) = img.into_parts();
    assert_eq!((w, h), (2, 1));
    assert_eq!(bytes, vec![3, 2, 1, 255, 6, 5, 4, 255]);
}

#[test]
fn decode_rgba_frame_keeps_alpha() {
    let data = vec![1u8, 2, 3, 40];
    let img = decode_frame(&data, 1, 1, 4, VideoFormat::Rgba).unwrap();
    let (_, _, bytes) = img.into_parts();
    assert_eq!(bytes, vec![1, 2, 3, 40]);
    let img = decode_frame(&data, 1, 1, 4, VideoFormat::Bgra).unwrap();
    let (_, _, bytes) = img.into_parts();
    assert_eq!(bytes, vec![3, 2, 1, 40]);
}

#[test]
fn decode_refuses_bad_frames() {
    let data = vec![0u8; 8];
    assert!(decode_frame(&data, 0, 1, 4, VideoFormat::Rgbx).is_none());
    assert!(decode_frame(&data, 1, 1, 4, VideoFormat::Other).is_none());
    // Second row would end at byte 12.
    assert!(decode_frame(&data, 1, 2, 8, VideoFormat::Rgbx).is_none());
    assert!(decode_frame(&data, 1, 2, 4, VideoFormat::Rgbx).is_some());
}

#[test]
fn layout_checks() {
    let ok = vec![monitor("A", 0, 0, 1920, 1080), monitor("B", 1920, 0, 1280, 1024)];
    assert!(edges_fit_check(&ok));
    let far = vec![monitor("A", i32::MAX - 10, 0, 100, 100)];
    assert!(!edges_fit_check(&far));
    assert!(!composite_ready_check(&far, &[]));
    assert!(!composite_ready_check(&[], &[]));
    assert!(composite_ready_check(&ok, &[]));
    let wide = vec![monitor("A", -2_000_000_000, 0, 10, 10), monitor("B", 2_000_000_000, 0, 10, 10)];
    assert!(edges_fit_check(&wide));
    assert!(!composite_ready_check(&wide, &[]));
}

#[test]
fn frame_checks() {
    let m = monitor("A", 0, 0, 2, 1);
    let good = solid_frame("A", 2, 1, [0, 0, 0, 0]);
    assert!(frame_drawable_check(&good, &m));
    let mut short = solid_frame("A", 2, 1, [0, 0, 0, 0]);
    short.data.truncate(6);
    assert!(!frame_drawable_check(&short, &m));
    assert!(!frame_drawable_check(&good, &monitor("A", 0, 0, -1, 1)));
    assert!(composite_ready_check(&[m.clone()], &[good]));
    let mut short2 = solid_frame("A", 2, 1, [0, 0, 0, 0]);
    short2.data.truncate(6);
    assert!(!composite_ready_check(&[m.clone()], &[short2]));
    // Frames after one without a monitor are not looked at.
    let stray = solid_frame("Z", 1, 1, [0, 0, 0, 0]);
    assert!(composite_ready_check(&[m], &[stray, short]));
}

#[test]
fn image_size_checks() {
    assert!(image_fits(1920, 1080));
    assert!(image_fits(0, u32::MAX));
    let huge = image_fits(u32::MAX, u32::MAX);
    assert_eq!(huge, usize::MAX as u128 >= 4 * (u32::MAX as u128) * (u32::MAX as u128));
}

#[test]
fn downsampled_frame_needs_only_the_pixels_it_shows() {
    // A 1x1 logical monitor shown from a 2x2 frame reads only its first pixel.
    let m = monitor("A", 0, 0, 1, 1);
    let frame = CapturedFrame {
        name: "A".to_string(),
        width: 2,
        height: 2,
        stride: 8,
        format: ShmFormat::Abgr8888,
        data: vec![1, 2, 3],
    };
    assert!(frame_drawable_check(&frame, &m));
    let img = composite_frames(&[m], &[frame]).unwrap();
    let (_, _, bytes) = img.into_parts();
    assert_eq!(bytes, vec![1, 2, 3, 255]);
}

#[test]
fn frame_fit_checks() {
    // 2x2 frame with rows 12 bytes apart: the last pixel starts at byte 16.
    assert!(frame_fits_check(2, 2, 12, 19));
    assert!(!frame_fits_check(2, 2, 12, 18));
    assert!(frame_fits_check(0, 5, 0, 0));
    assert!(!frame_fits_check(2, u32::MAX, u32::MAX, usize::MAX));
}
