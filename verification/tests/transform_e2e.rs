use omspbase::backends::ActiveTransform;
use omspbase::base::buffer::{I420Buffer, I420BufferRef, VideoBuffer};
use omspbase::base::frame::{BoxVideoFrame, VideoFrame};
use omspbase::base::rotation::VideoRotation;
use omspbase::transform::VideoTransform;

/// A 64×64-style I420 test frame with a bright 16×16 square in the center.
fn create_test_frame(width: u32, height: u32) -> BoxVideoFrame {
    let mut buf = I420Buffer::new(width, height);
    let cx = width / 2;
    let cy = height / 2;
    let half = 8u32;
    let stride_y = buf.stride_y as usize;
    let stride_u = buf.stride_u as usize;
    for y in (cy - half)..(cy + half) {
        for x in (cx - half)..(cx + half) {
            let yi = y as usize * stride_y + x as usize;
            if yi < buf.data_y.len() {
                buf.data_y[yi] = 235;
            }
        }
    }
    for y in (cy / 2 - half / 2)..(cy / 2 + half / 2) {
        for x in (cx / 2 - half / 2)..(cx / 2 + half / 2) {
            let ui = y as usize * stride_u + x as usize;
            if ui < buf.data_u.len() {
                buf.data_u[ui] = 100;
            }
        }
    }
    for y in (cy / 2 - half / 2)..(cy / 2 + half / 2) {
        for x in (cx / 2 - half / 2)..(cx / 2 + half / 2) {
            let vi = y as usize * stride_u + x as usize;
            if vi < buf.data_v.len() {
                buf.data_v[vi] = 180;
            }
        }
    }
    VideoFrame::new(Box::new(buf) as Box<dyn VideoBuffer>)
        .with_rotation(VideoRotation::Rotation0)
        .with_timestamp(0)
}

fn i420_ref(buf: &I420Buffer) -> I420BufferRef<'_> {
    buf.as_i420_ref().unwrap()
}

#[test]
fn scale_down_by_two() {
    let src_frame = create_test_frame(64, 64);
    let src = src_frame.buffer.to_i420().unwrap();
    let mut dst = I420Buffer::new(32, 32);
    ActiveTransform::scale(i420_ref(&src), 64, 64, &mut dst, 32, 32).unwrap();
    assert_eq!(dst.width(), 32);
    assert_eq!(dst.height(), 32);
    assert!(dst.data_y.iter().any(|&p| p > 16), "Expected some bright pixels after downscale");
}

#[test]
fn scale_up_by_two() {
    let src_frame = create_test_frame(64, 64);
    let src = src_frame.buffer.to_i420().unwrap();
    let mut dst = I420Buffer::new(128, 128);
    ActiveTransform::scale(i420_ref(&src), 64, 64, &mut dst, 128, 128).unwrap();
    assert_eq!(dst.width(), 128);
    assert_eq!(dst.height(), 128);
    assert!(dst.data_y.iter().any(|&p| p > 16), "Expected some bright pixels after upscale");
}

#[test]
fn scale_identity_is_copy() {
    let src_frame = create_test_frame(64, 64);
    let src = src_frame.buffer.to_i420().unwrap();
    let mut dst = I420Buffer::new(64, 64);
    ActiveTransform::scale(i420_ref(&src), 64, 64, &mut dst, 64, 64).unwrap();
    assert_eq!(dst.width(), 64);
    assert_eq!(dst.height(), 64);
    assert_eq!(dst.data_y, src.data_y, "Identity scale should preserve Y plane");
    assert_eq!(dst.data_u, src.data_u, "Identity scale should preserve U plane");
    assert_eq!(dst.data_v, src.data_v, "Identity scale should preserve V plane");
}

#[test]
fn mirror_is_idempotent() {
    let mut src = I420Buffer::new(8, 8);
    let stride_y = src.stride_y as usize;
    for i in 0..8u8 {
        src.data_y[i as usize * stride_y + i as usize] = 200;
    }
    let mut tmp = I420Buffer::new(8, 8);
    ActiveTransform::mirror(i420_ref(&src), 8, 8, &mut tmp).unwrap();
    let mut dst = I420Buffer::new(8, 8);
    ActiveTransform::mirror(i420_ref(&tmp), 8, 8, &mut dst).unwrap();
    assert_eq!(dst.data_y, src.data_y, "Double mirror should restore original");
}

#[test]
fn crop_center_32x32() {
    let src_frame = create_test_frame(64, 64);
    let src = src_frame.buffer.to_i420().unwrap();
    let mut dst = I420Buffer::new(32, 32);
    ActiveTransform::crop(i420_ref(&src), 16, 16, 32, 32, &mut dst).unwrap();
    assert_eq!(dst.width(), 32);
    assert_eq!(dst.height(), 32);
    let stride_y = dst.stride_y as usize;
    let center_pixel = dst.data_y[16 * stride_y + 16];
    assert!(center_pixel > 16, "Center pixel of crop should contain bright content");
}

#[test]
fn crop_top_left_corner() {
    let mut src = I420Buffer::new(8, 8);
    let stride_y = src.stride_y as usize;
    for y in 0..8usize {
        for x in 0..8usize {
            src.data_y[y * stride_y + x] = (y * 8 + x) as u8;
        }
    }
    let mut dst = I420Buffer::new(4, 4);
    ActiveTransform::crop(i420_ref(&src), 0, 0, 4, 4, &mut dst).unwrap();
    assert_eq!(dst.data_y[0], 0);
    assert_eq!(dst.data_y[3], 3);
    assert_eq!(dst.data_y[3 * 4], 24);
    assert_eq!(dst.data_y[3 * 4 + 3], 27);
}

#[test]
fn crop_bottom_right_corner() {
    let mut src = I420Buffer::new(8, 8);
    let stride_y = src.stride_y as usize;
    for y in 0..8usize {
        for x in 0..8usize {
            src.data_y[y * stride_y + x] = (y * 8 + x) as u8;
        }
    }
    let mut dst = I420Buffer::new(4, 4);
    ActiveTransform::crop(i420_ref(&src), 4, 4, 4, 4, &mut dst).unwrap();
    assert_eq!(dst.data_y[0], 36);
    assert_eq!(dst.data_y[3 * 4 + 3], 63);
}

#[test]
fn rotate_180_inverts_pixel_positions() {
    let mut src = I420Buffer::new(64, 64);
    let stride_y = src.stride_y as usize;
    src.data_y[0] = 10;
    src.data_y[63] = 20;
    src.data_y[63 * stride_y] = 30;
    src.data_y[63 * stride_y + 63] = 40;
    let mut dst = I420Buffer::new(64, 64);
    ActiveTransform::rotate(i420_ref(&src), 64, 64, VideoRotation::Rotation180, &mut dst).unwrap();
    assert_eq!(dst.width(), 64);
    assert_eq!(dst.height(), 64);
    assert_eq!(dst.data_y[0], 40, "Top-left should be old bottom-right");
    assert_eq!(dst.data_y[63], 30, "Top-right should be old bottom-left");
    assert_eq!(dst.data_y[63 * stride_y], 20, "Bottom-left should be old top-right");
    assert_eq!(dst.data_y[63 * stride_y + 63], 10, "Bottom-right should be old top-left");
}

#[test]
fn rotate_90_swaps_pixel_positions() {
    let mut src = I420Buffer::new(4, 2);
    for i in 0..8u8 {
        src.data_y[i as usize] = i;
    }
    src.data_u.fill(128);
    src.data_v.fill(128);
    let mut dst = I420Buffer::new(2, 4);
    ActiveTransform::rotate(i420_ref(&src), 4, 2, VideoRotation::Rotation90, &mut dst).unwrap();
    assert_eq!(dst.width(), 2);
    assert_eq!(dst.height(), 4);
    assert_eq!(dst.data_y[0], 4);
    assert_eq!(dst.data_y[1], 0);
    assert_eq!(dst.data_y[6], 7);
    assert_eq!(dst.data_y[7], 3);
}

#[test]
fn rotate_270_restores_after_90() {
    let mut src = I420Buffer::new(4, 2);
    for i in 0..8u8 {
        src.data_y[i as usize] = i;
    }
    src.data_u.fill(128);
    src.data_v.fill(128);
    let mut mid = I420Buffer::new(2, 4);
    ActiveTransform::rotate(i420_ref(&src), 4, 2, VideoRotation::Rotation90, &mut mid).unwrap();
    let mut dst = I420Buffer::new(4, 2);
    ActiveTransform::rotate(i420_ref(&mid), 2, 4, VideoRotation::Rotation270, &mut dst).unwrap();
    assert_eq!(dst.data_y, src.data_y, "90 + 270 should restore original pixel layout");
}

#[test]
fn transform_e2e_rotate_0_is_identity() {
    let mut src = I420Buffer::new(8, 8);
    let stride_y = src.stride_y as usize;
    for y in 0..8usize {
        for x in 0..8usize {
            src.data_y[y * stride_y + x] = (y * 8 + x) as u8;
        }
    }
    let mut dst = I420Buffer::new(8, 8);
    ActiveTransform::rotate(i420_ref(&src), 8, 8, VideoRotation::Rotation0, &mut dst).unwrap();
    assert_eq!(dst.data_y, src.data_y, "Rotation0 should be identity");
}
