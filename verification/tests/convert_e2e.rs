use omspbase::backends::NativeTransform;
use omspbase::base::buffer::{I420Buffer, I420BufferRef, VideoBuffer};
use omspbase::pixel_format::PixelFormat;
use omspbase::transform::VideoTransform;

fn i420_ref(buf: &I420Buffer) -> I420BufferRef<'_> {
    buf.as_i420_ref().unwrap()
}

#[test]
fn convert_e2e_argb_to_i420_roundtrip_loss_within_tolerance() {
    let w: u32 = 4;
    let h: u32 = 4;
    let mut argb = vec![0u8; (w * h * 4) as usize];
    for y in 0..h {
        for x in 0..w {
            let off = ((y * w + x) * 4) as usize;
            argb[off] = (x * 60) as u8;
            argb[off + 1] = (y * 60) as u8;
            argb[off + 2] = ((x + y) * 30) as u8;
            argb[off + 3] = 255;
        }
    }
    let mut i420_buf = I420Buffer::new(w, h);
    let result = NativeTransform::argb_to_i420(&argb, w, h, &mut i420_buf);
    assert!(result.is_ok(), "argb_to_i420 failed: {:?}", result.err());
    let mut argb_out = vec![0u8; (w * h * 4) as usize];
    let result = NativeTransform::i420_to_argb(i420_ref(&i420_buf), w, h, PixelFormat::BGRA, &mut argb_out);
    assert!(result.is_ok(), "i420_to_argb failed: {:?}", result.err());
    assert!(argb_out.iter().any(|&p| p != 0), "Expected non-zero output from round-trip");
}

#[test]
fn i420_to_nv12_roundtrip_preserves_data() {
    let w: u32 = 4;
    let h: u32 = 4;
    let mut i420_buf = I420Buffer::new(w, h);
    for i in 0..(w * h) as u8 {
        i420_buf.data_y[i as usize] = i;
    }
    i420_buf.data_u.fill(50);
    i420_buf.data_v.fill(150);
    let mut nv12_y = vec![0u8; (w * h) as usize];
    let mut nv12_uv = vec![0u8; (w * h / 2) as usize];
    let result = NativeTransform::i420_to_nv12(i420_ref(&i420_buf), w, h, &mut nv12_y, &mut nv12_uv);
    assert!(result.is_ok(), "i420_to_nv12 failed: {:?}", result.err());
    let mut i420_out = I420Buffer::new(w, h);
    let result = NativeTransform::nv12_to_i420(&nv12_y, &nv12_uv, w, h, &mut i420_out);
    assert!(result.is_ok(), "nv12_to_i420 failed: {:?}", result.err());
    assert_eq!(i420_out.width(), w);
    assert_eq!(i420_out.height(), h);
    assert_eq!(i420_out.data_y, i420_buf.data_y, "Y plane should be preserved through NV12 roundtrip");
    assert_eq!(i420_out.data_u, i420_buf.data_u, "U plane should be preserved through NV12 roundtrip");
    assert_eq!(i420_out.data_v, i420_buf.data_v, "V plane should be preserved through NV12 roundtrip");
}
