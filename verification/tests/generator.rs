use omspbase::pipeline::generator::fonts::bitmap_font::BitmapFont;
use omspbase::pipeline::generator::fonts::text_burner::{Anchor, TextBurner};
use omspbase::pipeline::generator::squares::{ColorStrategy, SquaresConfig, SquaresPattern};
use omspbase::pipeline::generator::smpte_bars::SmpteBarsPattern;
use omspbase::pipeline::generator::square_pattern::SquarePattern;
use omspbase::pipeline::generator::timestamp::{
    datetime_or_invalid, format_frame_count, split_lines, TimestampFormat, TimestampOverlay,
};
use omspbase::pipeline::generator::{pacing_next, pacing_sleep, render_frame, FramePattern, PatternMode};

fn planes(w: u32, h: u32) -> (Vec<u8>, Vec<u8>, Vec<u8>) {
    (
        vec![0u8; (w * h) as usize],
        vec![0u8; ((w / 2) * (h / 2)) as usize],
        vec![0u8; ((w / 2) * (h / 2)) as usize],
    )
}

#[test]
fn smpte_bars_produce_color_bars_and_gradient() {
    let mut pattern = SmpteBarsPattern::new();
    let w = 128;
    let h = 72;
    let (mut y, mut u, mut v) = planes(w, h);
    pattern.draw(&mut y, &mut u, &mut v, w as usize, (w / 2) as usize, (w / 2) as usize, w, h);
    let bar_height = (h * 2) / 3;
    assert!(bar_height > 0);
    let first_bar_pixel = y[0];
    assert_eq!(first_bar_pixel, 235, "first bar should be white (Y=235)");
    if bar_height < h {
        let grad_y_off = bar_height as usize * w as usize;
        assert!(y[grad_y_off] <= 30, "gradient top should be near black, got {}", y[grad_y_off]);
    }
    let last_row = (h - 1) as usize * w as usize;
    assert!(y[last_row] >= 220, "gradient bottom should be near white, got {}", y[last_row]);
}

#[test]
fn smpte_bars_seven_colors_present() {
    let mut pattern = SmpteBarsPattern::new();
    let w = 700;
    let h = 30;
    let (mut y, mut u, mut v) = planes(w, h);
    pattern.draw(&mut y, &mut u, &mut v, w as usize, (w / 2) as usize, (w / 2) as usize, w, h);
    let bar_w = w / 7;
    let expected_y_values: [u8; 7] = [235, 210, 170, 145, 106, 81, 41];
    for (i, &expected) in expected_y_values.iter().enumerate() {
        let px = (i as u32 * bar_w) as usize;
        assert_eq!(y[px], expected, "bar {} at x={}: expected Y={}, got Y={}", i, px, expected, y[px]);
    }
}

#[test]
fn smpte_chroma_and_ramp_values() {
    let mut pattern = SmpteBarsPattern::default();
    let (w, h) = (14u32, 6u32);
    let (mut y, mut u, mut v) = planes(w, h);
    pattern.draw(&mut y, &mut u, &mut v, 14, 7, 7, w, h);
    // bars: rows 0..4, 2 columns each; ramp rows 4 and 5 are 16 and 235.
    assert_eq!(&y[0..14], &[235, 235, 210, 210, 170, 170, 145, 145, 106, 106, 81, 81, 41, 41]);
    assert!(y[4 * 14..5 * 14].iter().all(|&p| p == 16));
    assert!(y[5 * 14..6 * 14].iter().all(|&p| p == 235));
    // chroma rows 0..2 carry the bars' U/V, one column per bar; row 2 is neutral.
    assert_eq!(&u[0..7], &[128, 16, 166, 54, 202, 90, 240]);
    assert_eq!(&v[0..7], &[128, 146, 16, 34, 222, 240, 110]);
    assert!(u[14..21].iter().all(|&p| p == 128));
    assert!(v[14..21].iter().all(|&p| p == 128));
}

#[test]
fn squares_pattern_creates_correct_number_of_squares() {
    let config = SquaresConfig { count: 5, ..Default::default() };
    let pattern = SquaresPattern::with_config(64, 48, config);
    assert_eq!(pattern.squares().len(), 5);
}

#[test]
fn squares_pattern_with_fixed_colors() {
    let config = SquaresConfig {
        count: 3,
        color_strategy: ColorStrategy::Fixed(vec![(200, 100, 100), (100, 200, 100), (100, 100, 200)]),
        ..Default::default()
    };
    let pattern = SquaresPattern::with_config(32, 32, config);
    assert_eq!(pattern.squares().len(), 3);
}

#[test]
fn motion_keeps_squares_in_bounds() {
    let config = SquaresConfig { count: 1, min_size: 8, max_size: 8, motion_speed: 5, ..Default::default() };
    let w = 32u32;
    let h = 32u32;
    let mut pattern = SquaresPattern::with_config(w, h, config);
    let mut y = vec![0u8; (w * h) as usize];
    let mut u = vec![128u8; ((w / 2) * (h / 2)) as usize];
    let mut v = vec![128u8; ((w / 2) * (h / 2)) as usize];
    for _ in 0..100 {
        pattern.draw(&mut y, &mut u, &mut v, w as usize, (w / 2) as usize, (w / 2) as usize, w, h);
        for sq in pattern.squares() {
            assert!(sq.x + sq.size <= w, "square x out of bounds: {} + {} > {}", sq.x, sq.size, w);
            assert!(sq.y + sq.size <= h, "square y out of bounds: {} + {} > {}", sq.y, sq.size, h);
        }
    }
}

#[test]
fn squares_generated_within_config() {
    let config = SquaresConfig { count: 50, min_size: 4, max_size: 9, ..Default::default() };
    let pattern = SquaresPattern::with_config(40, 30, config);
    for sq in pattern.squares() {
        assert!(sq.size >= 4 && sq.size <= 9);
        assert!(sq.x + sq.size <= 40 && sq.y + sq.size <= 30);
        assert!(sq.y_val >= 60 && sq.y_val < 200);
        assert!(sq.u_val >= 80 && sq.u_val < 176);
        assert!(sq.v_val >= 80 && sq.v_val < 176);
    }
}

#[test]
fn fixed_colors_cycle_per_frame() {
    let config = SquaresConfig {
        count: 2,
        min_size: 2,
        max_size: 2,
        color_strategy: ColorStrategy::Fixed(vec![(10, 20, 30), (40, 50, 60), (70, 80, 90)]),
        ..Default::default()
    };
    let mut pattern = SquaresPattern::with_config(8, 8, config);
    assert_eq!(pattern.squares()[0].y_val, 10);
    assert_eq!(pattern.squares()[1].y_val, 40);
    let (mut y, mut u, mut v) = planes(8, 8);
    pattern.draw(&mut y, &mut u, &mut v, 8, 4, 4, 8, 8);
    assert_eq!(pattern.squares()[0].y_val, 10);
    assert_eq!(pattern.squares()[1].y_val, 40);
    pattern.draw(&mut y, &mut u, &mut v, 8, 4, 4, 8, 8);
    assert_eq!(pattern.squares()[0].y_val, 40);
    assert_eq!(pattern.squares()[1].u_val, 80);
    // background is gray; the second square's 2×2 block carries its luma
    let sq = pattern.squares()[1];
    assert_eq!(y[(sq.y * 8 + sq.x) as usize], 70);
}

#[test]
fn squares_draw_background_gray() {
    let config = SquaresConfig { count: 0, ..Default::default() };
    let mut pattern = SquaresPattern::with_config(8, 4, config);
    let (mut y, mut u, mut v) = planes(8, 4);
    pattern.draw(&mut y, &mut u, &mut v, 8, 4, 4, 8, 4);
    assert!(y.iter().all(|&p| p == 128));
    assert!(u.iter().all(|&p| p == 128));
    assert!(v.iter().all(|&p| p == 128));
}

#[test]
fn square_pattern_draws_counter() {
    let mut pattern = SquarePattern::new(64, 32, 0);
    let (mut y, mut u, mut v) = planes(64, 32);
    pattern.draw(&mut y, &mut u, &mut v, 64, 32, 32, 64, 32);
    // dark background, counter "00001" in white from (4, 4)
    assert_eq!(y[0], 16);
    assert!(y.iter().any(|&p| p == 240));
    assert!(u.iter().all(|&p| p == 128));
    // the '1' of the fifth cell (x = 28..34): its row 8 is fully lit
    assert!(y[(4 + 8) * 64 + 28..(4 + 8) * 64 + 34].iter().all(|&p| p == 240));
}

#[test]
fn square_pattern_squares_fit() {
    let pattern = SquarePattern::new(100, 80, 20);
    let _ = pattern;
    let mut p2 = SquarePattern::new(100, 80, 3);
    let (mut y, mut u, mut v) = planes(100, 80);
    p2.draw(&mut y, &mut u, &mut v, 100, 50, 50, 100, 80);
    assert!(y.iter().any(|&p| p != 16));
}

#[test]
fn datetime_format_produces_iso_style_string() {
    let overlay = TimestampOverlay::new(TextBurner::new(BitmapFont::new(), false, Anchor::TopLeft), TimestampFormat::DateTime);
    let ts = 1_753_099_200_000_000i64;
    let text = overlay.format_text(ts, 0);
    assert!(text.starts_with("2025-07-21"));
    assert!(text.contains("12:00:00"));
}

#[test]
fn frame_count_zero_pads_six_digits() {
    let overlay = TimestampOverlay::new(TextBurner::new(BitmapFont::new(), false, Anchor::TopLeft), TimestampFormat::FrameCount);
    assert_eq!(overlay.format_text(0, 0), "000000");
    assert_eq!(overlay.format_text(0, 42), "000042");
    assert_eq!(overlay.format_text(0, 999999), "999999");
}

#[test]
fn combined_includes_both_lines() {
    let overlay = TimestampOverlay::new(TextBurner::new(BitmapFont::new(), false, Anchor::TopLeft), TimestampFormat::Combined);
    let ts = 1_753_113_600_000_000i64;
    let text = overlay.format_text(ts, 42);
    assert!(text.contains('\n'), "combined should have two lines");
    assert!(text.contains("000042"), "should contain frame count");
}

#[test]
fn burn_i420_clears_uv_to_128() {
    let overlay = TimestampOverlay::new(TextBurner::new(BitmapFont::new(), false, Anchor::TopLeft), TimestampFormat::FrameCount);
    let w = 64u32;
    let h = 32u32;
    let mut y = vec![16u8; (w * h) as usize];
    let mut u = vec![100u8; ((w / 2) * (h / 2)) as usize];
    let mut v = vec![200u8; ((w / 2) * (h / 2)) as usize];
    overlay.burn_i420(&mut y, &mut u, &mut v, w as usize, (w / 2) as usize, (w / 2) as usize, 0, 0, w, h);
    assert_eq!(u[2 * (w / 2) as usize + 2], 128, "U should be cleared to 128 in text region");
    assert_eq!(v[2 * (w / 2) as usize + 2], 128, "V should be cleared to 128 in text region");
}

#[test]
fn frame_count_wraps_at_one_million() {
    assert_eq!(format_frame_count(1_000_042), "000042");
    assert_eq!(format_frame_count(u32::MAX), "967295");
}

#[test]
fn invalid_timestamps_read_invalid_ts() {
    let overlay = TimestampOverlay::new(TextBurner::new(BitmapFont::new(), false, Anchor::TopLeft), TimestampFormat::DateTime);
    // A negative timestamp with a microsecond remainder hands chrono a
    // wrapped nanosecond count of more than two seconds.
    assert_eq!(overlay.format_text(-1, 0), "invalid ts");
    assert_eq!(overlay.format_text(-1_000_000, 0), "1969-12-31 23:59:59");
    assert_eq!(datetime_or_invalid(None), "invalid ts");
    assert_eq!(datetime_or_invalid(Some("x".to_string())), "x");
    assert!(matches!(overlay.format(), TimestampFormat::DateTime));
}

#[test]
fn lines_split_at_newlines() {
    assert_eq!(split_lines("ab\ncd"), vec!["ab", "cd"]);
    assert_eq!(split_lines("abc"), vec!["abc"]);
    assert_eq!(split_lines("a\n"), vec!["a", ""]);
    assert_eq!(split_lines(""), vec![""]);
}

#[test]
fn combined_overlay_clears_two_line_box() {
    let overlay = TimestampOverlay::new(
        TextBurner::new(BitmapFont::new(), false, Anchor::Position { x: 0, y: 0 }),
        TimestampFormat::Combined,
    );
    let (w, h) = (160u32, 40u32);
    let mut y = vec![0u8; (w * h) as usize];
    let mut u = vec![7u8; ((w / 2) * (h / 2)) as usize];
    let mut v = vec![7u8; ((w / 2) * (h / 2)) as usize];
    overlay.burn_i420(&mut y, &mut u, &mut v, 160, 80, 80, 0, 5, w, h);
    // "YYYY-MM-DD HH:MM:SS" is 19 cells of 6 pixels, two lines of 10 rows:
    // chroma box (0, 0)..(57, 10).
    assert_eq!(u[0], 128);
    assert_eq!(u[9 * 80 + 56], 128);
    assert_eq!(u[9 * 80 + 57], 7);
    assert_eq!(u[10 * 80], 7);
    assert!(y.iter().any(|&p| p == 240));
}

#[test]
fn pattern_mode_holds_config() {
    let mode = PatternMode::Squares(SquaresConfig::default());
    assert!(matches!(mode, PatternMode::Squares(ref c) if c.count == 10 && c.max_size == 63));
    assert!(matches!(PatternMode::SmpteBars, PatternMode::SmpteBars));
}

#[test]
fn pacing_sleeps_until_due_and_resets_when_behind() {
    assert_eq!(pacing_sleep(100, 250), 150);
    assert_eq!(pacing_sleep(300, 250), 0);
    assert_eq!(pacing_sleep(250, 250), 0);
    // on time: the next frame is one interval after the previous deadline
    assert_eq!(pacing_next(250, 100, 260, 261), 350);
    // fell behind by more than a frame: one interval after the reset reading
    assert_eq!(pacing_next(250, 100, 400, 401), 501);
    assert_eq!(pacing_next(250, 100, 350, 351), 451);
}

#[test]
fn render_frame_draws_pattern_then_overlay() {
    let mut bars = SmpteBarsPattern::new();
    let plain = render_frame(&mut bars, None, 14, 6, 0, 0);
    assert_eq!(plain.data_y[0], 235);
    assert_eq!(plain.data_y[5 * 14], 235);
    let overlay = TimestampOverlay::new(TextBurner::new(BitmapFont::new(), false, Anchor::TopLeft), TimestampFormat::FrameCount);
    let mut bars = SmpteBarsPattern::new();
    let frame = render_frame(&mut bars, Some(&overlay), 64, 32, 0, 7);
    assert_eq!(frame.data_y.len(), 64 * 32);
    assert_eq!(frame.data_u.len(), 32 * 16);
    // the "000007" text lies at (4, 4); its chroma is cleared to 128
    assert_eq!(frame.data_u[2 * 32 + 2], 128);
    assert!(frame.data_y.iter().any(|&p| p == 240));
}

#[test]
fn one_pixel_frames_fit_only_where_nothing_lands_outside() {
    let smpte = SmpteBarsPattern::new();
    assert!(smpte.fits_packed(1, 1));
    assert!(!smpte.fits_packed(1, 6));
    assert!(smpte.fits_packed(2, 6));
    let cfg = SquaresConfig { count: 0, ..Default::default() };
    let empty = SquaresPattern::with_config(1, 1, cfg);
    assert!(empty.fits_packed(1, 1));
    let cfg = SquaresConfig { count: 1, min_size: 1, max_size: 1, motion_speed: 0, ..Default::default() };
    let one = SquaresPattern::with_config(1, 1, cfg);
    assert!(!one.fits_packed(1, 1));
    assert!(one.fits_packed(2, 2));
    assert!(!TimestampOverlay::fits_packed(1, 4));
    assert!(TimestampOverlay::fits_packed(2, 2));
    let counter = SquarePattern::new(1, 1, 0);
    assert!(counter.fits_packed(1, 1));
}

struct CountingSink {
    seen: std::sync::Arc<std::sync::Mutex<Vec<u32>>>,
    tag: u32,
}

impl omspbase::pipeline::sink::VideoSink<u32> for CountingSink {
    fn on_frame(&self, frame: &u32) -> Result<omspbase::pipeline::sink::VideoSinkWants, omspbase::error::MediaError> {
        self.seen.lock().unwrap().push(self.tag * 100 + *frame);
        Err(omspbase::error::MediaError::Internal("ignored".to_string()))
    }
}

#[test]
fn generator_sinks_count_from_zero_and_skip_inactive() {
    let seen = std::sync::Arc::new(std::sync::Mutex::new(Vec::new()));
    let mut reg = omspbase::pipeline::generator::SinkRegistry::new();
    let active = omspbase::pipeline::sink::VideoSinkWants::default();
    let inactive = omspbase::pipeline::sink::VideoSinkWants { is_active: false, ..Default::default() };
    let a = reg.add(CountingSink { seen: seen.clone(), tag: 1 }, active);
    let b = reg.add(CountingSink { seen: seen.clone(), tag: 2 }, inactive);
    let c = reg.add(CountingSink { seen: seen.clone(), tag: 3 }, active);
    assert_eq!((a, b, c), (0, 1, 2));
    assert_eq!(reg.delivery_targets(), vec![0, 2]);
    reg.deliver(&7u32);
    assert_eq!(*seen.lock().unwrap(), vec![107, 307]);
    reg.remove(a);
    assert_eq!(reg.count(), 2);
    assert_eq!(reg.delivery_targets(), vec![1]);
}

#[test]
fn no_squares_accept_any_size_range() {
    let cfg = SquaresConfig { count: 0, min_size: 9, max_size: 3, ..Default::default() };
    let p = SquaresPattern::with_config(16, 16, cfg);
    assert_eq!(p.squares().len(), 0);
}
