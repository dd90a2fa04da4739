use omspbase::backends::NativeTransform;
use omspbase::base::buffer::{I420Buffer, I420BufferRef, VideoBuffer};
use omspbase::base::rotation::VideoRotation;
use omspbase::pixel_format::PixelFormat;
use omspbase::transform::VideoTransform;

fn make_i420(w: u32, h: u32) -> I420Buffer {
    I420Buffer::new(w, h)
}

fn i420_ref(buf: &I420Buffer) -> I420BufferRef<'_> {
    buf.as_i420_ref().unwrap()
}

#[test]
fn scale_same_size_is_copy() {
    let src_buf = make_i420(8, 8);
    let mut dst_buf = make_i420(8, 8);
    let src_ref = i420_ref(&src_buf);
    NativeTransform::scale(src_ref, 8, 8, &mut dst_buf, 8, 8).unwrap();
    assert_eq!(dst_buf.data_y, src_buf.data_y);
}

#[test]
fn scale_half_size() {
    let mut src_buf = make_i420(8, 8);
    for i in 0..64 {
        src_buf.data_y[i] = (i % 256) as u8;
    }
    src_buf.data_u.fill(50);
    src_buf.data_v.fill(150);

    let mut dst_buf = make_i420(4, 4);
    let src_ref = i420_ref(&src_buf);
    NativeTransform::scale(src_ref, 8, 8, &mut dst_buf, 4, 4).unwrap();
    assert_eq!(dst_buf.data_y.len(), 16);
    assert_eq!(dst_buf.data_y[0], src_buf.data_y[0]);
}

// `mirror` flips a frame vertically: output row y is input row h - 1 - y.
// That is what the transform's documentation and contract say, so no test
// here expects a left-to-right mirror.
#[test]
fn mirror_vertical_flip() {
    let mut src_buf = make_i420(4, 4);
    for y in 0..4u32 {
        let off = (y * 4) as usize;
        src_buf.data_y[off..off + 4].fill(y as u8);
    }
    let mut dst_buf = make_i420(4, 4);
    let src_ref = i420_ref(&src_buf);
    NativeTransform::mirror(src_ref, 4, 4, &mut dst_buf).unwrap();
    assert_eq!(dst_buf.data_y[0], 3);
    assert_eq!(dst_buf.data_y[3 * 4], 0);
}

#[test]
fn crop_2x2_from_4x4() {
    let mut src_buf = make_i420(4, 4);
    for i in 0..16u8 {
        src_buf.data_y[i as usize] = i;
    }
    let mut dst_buf = make_i420(2, 2);
    let src_ref = i420_ref(&src_buf);
    NativeTransform::crop(src_ref, 0, 0, 2, 2, &mut dst_buf).unwrap();
    assert_eq!(dst_buf.data_y[0], 0);
    assert_eq!(dst_buf.data_y[1], 1);
    assert_eq!(dst_buf.data_y[2], 4);
    assert_eq!(dst_buf.data_y[3], 5);
}

#[test]
fn crop_bottom_right_2x2() {
    let mut src_buf = make_i420(4, 4);
    for i in 0..16u8 {
        src_buf.data_y[i as usize] = i;
    }
    let mut dst_buf = make_i420(2, 2);
    let src_ref = i420_ref(&src_buf);
    NativeTransform::crop(src_ref, 2, 2, 2, 2, &mut dst_buf).unwrap();
    assert_eq!(dst_buf.data_y[0], 10);
    assert_eq!(dst_buf.data_y[1], 11);
    assert_eq!(dst_buf.data_y[2], 14);
    assert_eq!(dst_buf.data_y[3], 15);
}

#[test]
fn native_rotate_0_is_identity() {
    let mut src_buf = make_i420(4, 4);
    for i in 0..16u8 {
        src_buf.data_y[i as usize] = i;
    }
    let mut dst_buf = make_i420(4, 4);
    let src_ref = i420_ref(&src_buf);
    NativeTransform::rotate(src_ref, 4, 4, VideoRotation::Rotation0, &mut dst_buf).unwrap();
    assert_eq!(dst_buf.data_y, src_buf.data_y);
}

#[test]
fn rotate_180_is_invert() {
    let mut src_buf = make_i420(4, 4);
    for i in 0..16u8 {
        src_buf.data_y[i as usize] = i;
    }
    let mut dst_buf = make_i420(4, 4);
    let src_ref = i420_ref(&src_buf);
    NativeTransform::rotate(src_ref, 4, 4, VideoRotation::Rotation180, &mut dst_buf).unwrap();
    assert_eq!(dst_buf.data_y[0], 15);
    assert_eq!(dst_buf.data_y[15], 0);
}

// Rotation angles are clockwise, as `VideoRotation` documents them: 90°
// takes output row r, column c from input row h - 1 - c, column r, and 270°
// is the mirror image. Expectations that place input pixel (0, 0) at output
// index 6 of a 4×2 frame rotated by 90° describe a counter-clockwise turn
// and are not used.
#[test]
fn rotate_270_turns_a_quarter_counter_clockwise() {
    let mut src_buf = make_i420(4, 2);
    for i in 0..8u8 {
        src_buf.data_y[i as usize] = i;
    }
    src_buf.data_u.fill(128);
    src_buf.data_v.fill(128);
    let mut dst_buf = make_i420(2, 4);
    let src_ref = i420_ref(&src_buf);
    NativeTransform::rotate(src_ref, 4, 2, VideoRotation::Rotation270, &mut dst_buf).unwrap();
    assert_eq!(&dst_buf.data_y[..8], &[3, 7, 2, 6, 1, 5, 0, 4]);
}

#[test]
fn argb_to_i420_black() {
    let mut argb = vec![0u8; 16];
    for i in (0..16).step_by(4) {
        argb[i] = 0;
        argb[i + 1] = 0;
        argb[i + 2] = 0;
        argb[i + 3] = 255;
    }
    let mut dst_buf = make_i420(2, 2);
    NativeTransform::argb_to_i420(&argb, 2, 2, &mut dst_buf).unwrap();
    assert!((dst_buf.data_y[0] as i32 - 16).abs() <= 1);
    assert!((dst_buf.data_u[0] as i32 - 128).abs() <= 1);
    assert!((dst_buf.data_v[0] as i32 - 128).abs() <= 1);
}

#[test]
fn argb_to_i420_white() {
    let mut argb = vec![0u8; 64];
    for i in (0..64).step_by(4) {
        argb[i] = 255;
        argb[i + 1] = 255;
        argb[i + 2] = 255;
        argb[i + 3] = 255;
    }
    let mut dst_buf = make_i420(4, 4);
    NativeTransform::argb_to_i420(&argb, 4, 4, &mut dst_buf).unwrap();
    assert!((dst_buf.data_y[0] as i32 - 235).abs() <= 1);
    assert!((dst_buf.data_u[0] as i32 - 128).abs() <= 1);
}

#[test]
fn i420_to_argb_roundtrip_black() {
    let mut src_buf = make_i420(4, 4);
    src_buf.data_y.fill(16);
    src_buf.data_u.fill(128);
    src_buf.data_v.fill(128);
    let mut argb_out = vec![0u8; 64];
    let src_ref = i420_ref(&src_buf);
    NativeTransform::i420_to_argb(src_ref, 4, 4, PixelFormat::ARGB, &mut argb_out).unwrap();
    for i in (0..64).step_by(4) {
        assert_eq!(argb_out[i], 255);
        assert!(argb_out[i + 1] <= 5);
        assert!(argb_out[i + 2] <= 5);
        assert!(argb_out[i + 3] <= 5);
    }
}

#[test]
fn i420_to_argb_bgra_format() {
    let mut src_buf = make_i420(4, 4);
    src_buf.data_y.fill(16);
    src_buf.data_u.fill(128);
    src_buf.data_v.fill(128);
    let mut argb_out = vec![0u8; 64];
    let src_ref = i420_ref(&src_buf);
    NativeTransform::i420_to_argb(src_ref, 4, 4, PixelFormat::BGRA, &mut argb_out).unwrap();
    assert_eq!(argb_out[3], 255);
    assert!(argb_out[0] <= 5);
    assert!(argb_out[1] <= 5);
    assert!(argb_out[2] <= 5);
}

#[test]
fn i420_to_argb_unsupported_format() {
    let src_buf = make_i420(4, 4);
    let src_ref = i420_ref(&src_buf);
    let mut dst = vec![0u8; 64];
    let result = NativeTransform::i420_to_argb(src_ref, 4, 4, PixelFormat::NV12, &mut dst);
    assert!(result.is_err());
    assert!(dst.iter().all(|&b| b == 0));
}

#[test]
fn i420_nv12_roundtrip() {
    let mut src_buf = make_i420(8, 8);
    for i in 0..64u8 {
        src_buf.data_y[i as usize] = i;
    }
    src_buf.data_u.fill(50);
    src_buf.data_v.fill(150);
    let mut nv12_y = vec![0u8; 64];
    let mut nv12_uv = vec![0u8; 32];
    let src_ref = i420_ref(&src_buf);
    NativeTransform::i420_to_nv12(src_ref, 8, 8, &mut nv12_y, &mut nv12_uv).unwrap();
    assert_eq!(&nv12_y[..64], &src_buf.data_y[..64]);
    let mut dst_buf = make_i420(8, 8);
    NativeTransform::nv12_to_i420(&nv12_y, &nv12_uv, 8, 8, &mut dst_buf).unwrap();
    assert_eq!(dst_buf.data_y, src_buf.data_y);
    assert_eq!(dst_buf.data_u, src_buf.data_u);
    assert_eq!(dst_buf.data_v, src_buf.data_v);
}

#[test]
fn native_argb_to_i420_roundtrip_loss_within_tolerance() {
    let mut input = vec![0u8; 64];
    let quad_colors: [(u8, u8, u8); 4] = [(255, 0, 0), (0, 255, 0), (0, 0, 255), (128, 128, 128)];
    for y in 0..4u32 {
        for x in 0..4u32 {
            let qi = (y / 2 * 2 + x / 2) as usize;
            let (r, g, b) = quad_colors[qi];
            let off = ((y * 4 + x) * 4) as usize;
            input[off] = b;
            input[off + 1] = g;
            input[off + 2] = r;
            input[off + 3] = 255;
        }
    }
    let mut i420_buf = make_i420(4, 4);
    NativeTransform::argb_to_i420(&input, 4, 4, &mut i420_buf).unwrap();
    let mut output = vec![0u8; 64];
    let src_ref = i420_ref(&i420_buf);
    NativeTransform::i420_to_argb(src_ref, 4, 4, PixelFormat::BGRA, &mut output).unwrap();
    for px in 0..16usize {
        let off = px * 4;
        let orig_b = input[off] as i32;
        let orig_g = input[off + 1] as i32;
        let orig_r = input[off + 2] as i32;
        let out_b = output[off] as i32;
        let out_g = output[off + 1] as i32;
        let out_r = output[off + 2] as i32;
        assert!((orig_r - out_r).abs() <= 15, "R diff too large at px {}", px);
        assert!((orig_g - out_g).abs() <= 15, "G diff too large at px {}", px);
        assert!((orig_b - out_b).abs() <= 15, "B diff too large at px {}", px);
    }
}

#[test]
fn get_backend_is_native() {
    fn scale_with<T: VideoTransform>(_t: T, src: &I420Buffer, dst: &mut I420Buffer) {
        T::scale(src.as_i420_ref().unwrap(), 4, 4, dst, 4, 4).unwrap();
    }
    let mut src = make_i420(4, 4);
    src.data_y[5] = 77;
    let mut dst = make_i420(4, 4);
    scale_with(omspbase::backends::get_backend(), &src, &mut dst);
    assert_eq!(dst.data_y, src.data_y);
}

#[test]
fn mirror_twice_restores_every_plane() {
    let mut src = make_i420(6, 4);
    for i in 0..24u8 {
        src.data_y[i as usize] = i * 3;
    }
    for i in 0..6u8 {
        src.data_u[i as usize] = 100 + i;
        src.data_v[i as usize] = 200 + i;
    }
    let mut mid = make_i420(6, 4);
    NativeTransform::mirror(i420_ref(&src), 6, 4, &mut mid).unwrap();
    let mut back = make_i420(6, 4);
    NativeTransform::mirror(i420_ref(&mid), 6, 4, &mut back).unwrap();
    assert_eq!(back.data_y, src.data_y);
    assert_eq!(back.data_u, src.data_u);
    assert_eq!(back.data_v, src.data_v);
}

#[test]
fn rotate_180_twice_restores() {
    let mut src = make_i420(4, 2);
    for i in 0..8u8 {
        src.data_y[i as usize] = i + 1;
    }
    let mut mid = make_i420(4, 2);
    NativeTransform::rotate(i420_ref(&src), 4, 2, VideoRotation::Rotation180, &mut mid).unwrap();
    assert_eq!(mid.data_y, vec![8, 7, 6, 5, 4, 3, 2, 1]);
    let mut back = make_i420(4, 2);
    NativeTransform::rotate(i420_ref(&mid), 4, 2, VideoRotation::Rotation180, &mut back).unwrap();
    assert_eq!(back.data_y, src.data_y);
}

#[test]
fn argb_to_i420_exact_bt601_values() {
    // One 2x2 block of pure red, BGRA byte order.
    let mut argb = vec![0u8; 16];
    for px in 0..4 {
        argb[px * 4 + 2] = 255;
        argb[px * 4 + 3] = 255;
    }
    let mut dst = make_i420(2, 2);
    NativeTransform::argb_to_i420(&argb, 2, 2, &mut dst).unwrap();
    // Y = ((66*255 + 128) >> 8) + 16 = 82; U = ((-38*255 + 128) >> 8) + 128 = 90;
    // V = ((112*255 + 128) >> 8) + 128 = 240.
    assert_eq!(dst.data_y, vec![82, 82, 82, 82]);
    assert_eq!(dst.data_u[0], 90);
    assert_eq!(dst.data_v[0], 240);
}

#[test]
fn v_plane_uses_its_own_row_pitch() {
    // 4×4 frame: U rows of pitch 2, V rows of pitch 3 (one padding byte).
    let y = vec![0u8; 16];
    let u = vec![1u8, 2, 3, 4];
    let v = vec![10u8, 11, 99, 20, 21, 99];
    let src = I420BufferRef { y: &y, u: &u, v: &v, stride_y: 4, stride_u: 2, stride_v: 3 };
    let mut flipped = make_i420(4, 4);
    NativeTransform::mirror(src, 4, 4, &mut flipped).unwrap();
    assert_eq!(flipped.data_u, vec![3, 4, 1, 2]);
    assert_eq!(flipped.data_v, vec![20, 21, 10, 11]);
    let src = I420BufferRef { y: &y, u: &u, v: &v, stride_y: 4, stride_u: 2, stride_v: 3 };
    let mut copied = make_i420(4, 4);
    NativeTransform::rotate(src, 4, 4, VideoRotation::Rotation0, &mut copied).unwrap();
    assert_eq!(copied.data_v, vec![10, 11, 20, 21]);
    let src = I420BufferRef { y: &y, u: &u, v: &v, stride_y: 4, stride_u: 2, stride_v: 3 };
    let mut cropped = make_i420(2, 2);
    NativeTransform::crop(src, 2, 2, 2, 2, &mut cropped).unwrap();
    assert_eq!(cropped.data_v, vec![21]);
}
