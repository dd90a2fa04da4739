use omspbase::base::buffer::{I010Buffer, I420Buffer, I422Buffer, I444Buffer, NV12Buffer, VideoBuffer};
use omspbase::pixel_format::PixelFormat;

fn make_i422(w: u32, h: u32) -> I422Buffer {
    I422Buffer {
        data_y: vec![0u8; (w * h) as usize],
        data_u: vec![128u8; (w * (h / 2)) as usize],
        data_v: vec![128u8; (w * (h / 2)) as usize],
        stride_y: w,
        stride_u: w,
        stride_v: w,
        width: w,
        height: h,
    }
}

fn make_i444(w: u32, h: u32) -> I444Buffer {
    I444Buffer {
        data_y: vec![0u8; (w * h) as usize],
        data_u: vec![128u8; (w * h) as usize],
        data_v: vec![128u8; (w * h) as usize],
        stride_y: w,
        stride_u: w,
        stride_v: w,
        width: w,
        height: h,
    }
}

fn make_nv12(w: u32, h: u32) -> NV12Buffer {
    NV12Buffer {
        data_y: vec![0u8; (w * h) as usize],
        data_uv: vec![128u8; (w * (h / 2)) as usize],
        stride_y: w,
        stride_uv: w,
        width: w,
        height: h,
    }
}

fn make_i010(w: u32, h: u32) -> I010Buffer {
    I010Buffer {
        data_y: vec![0u16; (w * h) as usize],
        data_u: vec![512u16; ((w / 2) * (h / 2)) as usize],
        data_v: vec![512u16; ((w / 2) * (h / 2)) as usize],
        stride_y: w,
        stride_u: w / 2,
        stride_v: w / 2,
        width: w,
        height: h,
    }
}

#[test]
fn i420_new_creates_correct_plane_sizes() {
    let buf = I420Buffer::new(16, 8);
    assert_eq!(buf.data_y.len(), 128);
    assert_eq!(buf.data_u.len(), 32);
    assert_eq!(buf.data_v.len(), 32);
    assert_eq!(buf.stride_y, 16);
    assert_eq!(buf.stride_u, 8);
    assert_eq!(buf.stride_v, 8);
    assert_eq!(buf.width(), 16);
    assert_eq!(buf.height(), 8);
    assert_eq!(buf.format(), PixelFormat::I420);
}

#[test]
fn i420_new_default_fill() {
    let buf = I420Buffer::new(8, 8);
    assert!(buf.data_y.iter().all(|&v| v == 0));
    assert!(buf.data_u.iter().all(|&v| v == 128));
    assert!(buf.data_v.iter().all(|&v| v == 128));
}

#[test]
fn i422_to_i420_preserves_dimensions() {
    let buf = make_i422(8, 8);
    let result = buf.to_i420().unwrap();
    assert_eq!(result.width(), 8);
    assert_eq!(result.height(), 8);
    assert_eq!(result.format(), PixelFormat::I420);
}

#[test]
fn i444_to_i420_preserves_dimensions() {
    let buf = make_i444(8, 8);
    let result = buf.to_i420().unwrap();
    assert_eq!(result.width(), 8);
    assert_eq!(result.height(), 8);
    assert_eq!(result.format(), PixelFormat::I420);
}

#[test]
fn nv12_to_i420_preserves_dimensions() {
    let buf = make_nv12(8, 8);
    let result = buf.to_i420().unwrap();
    assert_eq!(result.width(), 8);
    assert_eq!(result.height(), 8);
    assert_eq!(result.format(), PixelFormat::I420);
}

#[test]
fn i010_to_i420_preserves_dimensions() {
    let buf = make_i010(8, 8);
    let result = buf.to_i420().unwrap();
    assert_eq!(result.width(), 8);
    assert_eq!(result.height(), 8);
    assert_eq!(result.format(), PixelFormat::I420);
}

#[test]
fn i420_scale_produces_correct_output_dimensions() {
    let src = I420Buffer::new(16, 16);

    let half = src.scale(8, 8);
    assert_eq!(half.width(), 8);
    assert_eq!(half.height(), 8);

    let quarter = src.scale(4, 4);
    assert_eq!(quarter.width(), 4);
    assert_eq!(quarter.height(), 4);

    let double = src.scale(32, 32);
    assert_eq!(double.width(), 32);
    assert_eq!(double.height(), 32);
}

#[test]
fn i420_scale_identity_returns_same_size() {
    let src = I420Buffer::new(10, 6);
    let result = src.scale(10, 6);
    assert_eq!(result.width(), 10);
    assert_eq!(result.height(), 6);
    assert_eq!(result.data_y.len(), 60);
}

#[test]
fn buffer_formats_match_pixel_format() {
    assert_eq!(I420Buffer::new(4, 4).format(), PixelFormat::I420);
    assert_eq!(make_i422(4, 4).format(), PixelFormat::I422);
    assert_eq!(make_i444(4, 4).format(), PixelFormat::I444);
    assert_eq!(make_nv12(4, 4).format(), PixelFormat::NV12);
    assert_eq!(make_i010(4, 4).format(), PixelFormat::I010);
}

#[test]
fn i420_as_downcasts_return_some() {
    let buf = I420Buffer::new(4, 4);
    let vb: &dyn VideoBuffer = &buf;
    assert!(vb.as_i420().is_some());
    assert!(vb.as_i422().is_none());
    assert!(vb.as_i444().is_none());
    assert!(vb.as_nv12().is_none());
    assert!(vb.as_i010().is_none());
}

#[test]
fn i422_as_downcasts_return_some() {
    let buf = make_i422(4, 4);
    let vb: &dyn VideoBuffer = &buf;
    assert!(vb.as_i420().is_none());
    assert!(vb.as_i422().is_some());
}

#[test]
fn i010_to_i420_truncates_10bit() {
    let mut buf = make_i010(4, 4);
    buf.data_y.fill(0x2A8);
    let result = buf.to_i420().unwrap();
    assert_eq!(result.data_y[0], 0xAA);
    assert_eq!(result.data_y[15], 0xAA);
}

#[test]
fn i422_chroma_is_mean_of_horizontal_pairs() {
    let mut buf = make_i422(4, 4);
    // chroma rows of 4 samples at stride 4; output sample (y, x) averages
    // input samples 2x and 2x + 1 of row y.
    buf.data_u = vec![10, 21, 100, 200, 0, 1, 255, 254];
    buf.data_v = vec![7, 8, 9, 10, 11, 12, 13, 14];
    let out = buf.to_i420().unwrap();
    assert_eq!(out.data_u, vec![15, 150, 0, 254]);
    assert_eq!(out.data_v, vec![7, 9, 11, 13]);
}

#[test]
fn i444_chroma_is_mean_of_quads() {
    let mut buf = make_i444(2, 2);
    buf.data_u = vec![10, 20, 30, 41];
    buf.data_v = vec![255, 255, 255, 254];
    let out = buf.to_i420().unwrap();
    assert_eq!(out.data_u, vec![25]);
    assert_eq!(out.data_v, vec![254]);
}

#[test]
fn nv12_chroma_is_deinterleaved() {
    let mut buf = make_nv12(4, 2);
    buf.data_uv = vec![1, 2, 3, 4];
    let out = buf.to_i420().unwrap();
    assert_eq!(out.data_u, vec![1, 3]);
    assert_eq!(out.data_v, vec![2, 4]);
}

#[test]
fn i420_scale_picks_nearest_source_pixel() {
    let mut src = I420Buffer::new(4, 4);
    for i in 0..16u8 {
        src.data_y[i as usize] = i;
    }
    let out = src.scale(2, 2);
    // destination (y, x) reads source (y * 4 / 2, x * 4 / 2)
    assert_eq!(out.data_y, vec![0, 2, 8, 10]);
    let up = src.scale(8, 8);
    assert_eq!(up.data_y[0], 0);
    assert_eq!(up.data_y[1], 0);
    assert_eq!(up.data_y[2], 1);
    assert_eq!(up.data_y[8 * 7 + 7], 15);
}
