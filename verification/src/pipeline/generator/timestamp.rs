//! A timestamp or frame counter burned into I420 planes: the text in the
//! luma plane, the chroma under it cleared to 128.

use vstd::prelude::*;
use vstd::string::{StrSliceExecFns, StringExecFns};
use chrono::TimeZone;
use super::canvas::{box_fits, fill_box, in_box, lemma_box_fits_sub, lemma_packed_box, mark};
use crate::base::buffer::{chroma_size, luma_size};
use super::fonts::bitmap_font::{luma_fits, text_pixel, text_steps, INK};
use super::fonts::text_burner::{min_int, sat_sub, Anchor, TextBurner, MARGIN};
use super::squares::half_at_least_one;

verus! {

/// What `chrono::Utc.timestamp_opt(secs, nsecs)` followed by
/// `DateTime::format(pattern)` writes, or none where chrono has no date
/// for `secs` and `nsecs`.
pub uninterp spec fn utc_formatted(secs: i64, nsecs: u32, pattern: Seq<char>) -> Option<Seq<char>>;

/// `chrono::Utc.timestamp_opt(secs, nsecs)`, and for a single result its
/// `format(pattern)` written out to a `String`. The result is named by
/// `utc_formatted`. chrono returns no date for a nanosecond count of two
/// seconds or more (its leap-second encoding stops below that); that much
/// is stated. chrono's written-out format panics on a pattern with an
/// invalid specifier, so the pattern is held to the overlay's own, whose
/// specifiers are all valid.
#[verifier::external_body]
fn utc_format(secs: i64, nsecs: u32, pattern: &str) -> (r: Option<String>)
    requires
        pattern@ == datetime_pattern(),
    ensures
        r matches Some(s) ==> utc_formatted(secs, nsecs, pattern@) == Some(s@),
        r is None ==> utc_formatted(secs, nsecs, pattern@) is None,
        nsecs >= 2_000_000_000 ==> r is None,
{
    match chrono::Utc.timestamp_opt(secs, nsecs) {
        chrono::LocalResult::Single(dt) => Some(dt.format(pattern).to_string()),
        chrono::LocalResult::Ambiguous(_, _) => None,
        chrono::LocalResult::None => None,
    }
}

/// The date-time pattern of the overlay: `YYYY-MM-DD HH:MM:SS`.
pub open spec fn datetime_pattern() -> Seq<char> {
    seq!['%', 'Y', '-', '%', 'm', '-', '%', 'd', ' ', '%', 'H', ':', '%', 'M', ':', '%', 'S']
}

/// The text shown where chrono has no date for a timestamp.
pub open spec fn invalid_text() -> Seq<char> {
    seq!['i', 'n', 'v', 'a', 'l', 'i', 'd', ' ', 't', 's']
}

/// Whole seconds of a microsecond timestamp, rounded toward zero.
pub open spec fn ts_secs(ts_us: i64) -> i64 {
    if ts_us >= 0 {
        ((ts_us as int) / 1_000_000) as i64
    } else {
        (-((-(ts_us as int)) / 1_000_000)) as i64
    }
}

/// The nanosecond part handed to chrono: the remainder (of the sign of the
/// timestamp) times 1000, as a `u32` with wrap-around.
pub open spec fn ts_nanos(ts_us: i64) -> u32 {
    let rem: int = if ts_us >= 0 {
        (ts_us as int) % 1_000_000
    } else {
        -((-(ts_us as int)) % 1_000_000)
    };
    (rem * 1000) as u32
}

/// The date-time text of a microsecond timestamp.
pub open spec fn datetime_text(ts_us: i64) -> Seq<char> {
    match utc_formatted(ts_secs(ts_us), ts_nanos(ts_us), datetime_pattern()) {
        Some(s) => s,
        None => invalid_text(),
    }
}

/// The decimal digit `d` as a character.
pub open spec fn digit_char(d: int) -> char {
    if d == 0 { '0' } else if d == 1 { '1' } else if d == 2 { '2' } else if d == 3 { '3' }
    else if d == 4 { '4' } else if d == 5 { '5' } else if d == 6 { '6' } else if d == 7 { '7' }
    else if d == 8 { '8' } else { '9' }
}

/// The frame counter text: the counter modulo one million, zero-padded to
/// six digits.
pub open spec fn frame_count_text(frame_id: u32) -> Seq<char> {
    let n = (frame_id % 1_000_000) as int;
    seq![
        digit_char(n / 100_000 % 10),
        digit_char(n / 10_000 % 10),
        digit_char(n / 1_000 % 10),
        digit_char(n / 100 % 10),
        digit_char(n / 10 % 10),
        digit_char(n % 10),
    ]
}

/// Format for the timestamp overlay text.
#[derive(Clone, Copy, Debug)]
pub enum TimestampFormat {
    /// YYYY-MM-DD HH:MM:SS (wall clock from a microsecond timestamp).
    DateTime,
    /// Frame counter: zero-padded 6 digits.
    FrameCount,
    /// Both DateTime and FrameCount on separate lines.
    Combined,
}

/// The overlay text for `format`, a timestamp and a frame counter.
pub open spec fn overlay_text(format: TimestampFormat, ts_us: i64, frame_id: u32) -> Seq<char> {
    match format {
        TimestampFormat::DateTime => datetime_text(ts_us),
        TimestampFormat::FrameCount => frame_count_text(frame_id),
        TimestampFormat::Combined => datetime_text(ts_us) + seq!['\n'] + frame_count_text(frame_id),
    }
}

/// The text for the result of formatting a timestamp: the formatted date,
/// or `invalid ts` where there was none.
pub fn datetime_or_invalid(formatted: Option<String>) -> (s: String)
    ensures
        s@ == match formatted {
            Some(t) => t@,
            None => invalid_text(),
        },
{
    match formatted {
        Some(t) => t,
        None => {
            let s = String::from_str("invalid ts");
            proof {
                reveal_strlit("invalid ts");
            }
            s
        },
    }
}

/// Splits a microsecond timestamp into whole seconds and the nanoseconds
/// handed to chrono.
fn split_timestamp(ts_us: i64) -> (r: (i64, u32))
    ensures
        r.0 == ts_secs(ts_us),
        r.1 == ts_nanos(ts_us),
{
    let secs = ts_us / 1_000_000;
    let rem = ts_us % 1_000_000;
    let nsecs = (rem * 1000) as u32;
    (secs, nsecs)
}

/// The date-time text of a microsecond timestamp.
fn format_datetime(ts_us: i64) -> (s: String)
    ensures
        s@ == datetime_text(ts_us),
{
    let (secs, nsecs) = split_timestamp(ts_us);
    let pattern = "%Y-%m-%d %H:%M:%S";
    proof {
        reveal_strlit("%Y-%m-%d %H:%M:%S");
        assert(pattern@ =~= datetime_pattern());
    }
    datetime_or_invalid(utc_format(secs, nsecs, pattern))
}

/// The decimal digit `d` as a one-character string.
pub(crate) fn digit_str(d: u32) -> (s: &'static str)
    requires
        d < 10,
    ensures
        s@ == seq![digit_char(d as int)],
{
    proof {
        reveal_strlit("0");
        reveal_strlit("1");
        reveal_strlit("2");
        reveal_strlit("3");
        reveal_strlit("4");
        reveal_strlit("5");
        reveal_strlit("6");
        reveal_strlit("7");
        reveal_strlit("8");
        reveal_strlit("9");
    }
    let s = if d == 0 { "0" } else if d == 1 { "1" } else if d == 2 { "2" } else if d == 3 { "3" }
    else if d == 4 { "4" } else if d == 5 { "5" } else if d == 6 { "6" } else if d == 7 { "7" }
    else if d == 8 { "8" } else { "9" };
    assert(s@ =~= seq![digit_char(d as int)]);
    s
}

/// The frame counter modulo one million, zero-padded to six digits.
pub fn format_frame_count(frame_id: u32) -> (s: String)
    ensures
        s@ == frame_count_text(frame_id),
{
    let n = frame_id % 1_000_000;
    let mut s = String::from_str("");
    proof {
        reveal_strlit("");
    }
    s.append(digit_str(n / 100_000 % 10));
    s.append(digit_str(n / 10_000 % 10));
    s.append(digit_str(n / 1_000 % 10));
    s.append(digit_str(n / 100 % 10));
    s.append(digit_str(n / 10 % 10));
    s.append(digit_str(n % 10));
    assert(s@ =~= frame_count_text(frame_id));
    s
}

/// The lines of a text split at each `'\n'` (a text without one is one
/// line; a trailing `'\n'` ends with an empty line).
pub open spec fn lines_of(s: Seq<char>) -> Seq<Seq<char>>
    decreases s.len(),
{
    if s.len() == 0 {
        seq![Seq::empty()]
    } else {
        let prev = lines_of(s.drop_last());
        if s.last() == '\n' {
            prev.push(Seq::empty())
        } else {
            prev.update(prev.len() - 1, prev.last().push(s.last()))
        }
    }
}

/// A text has at least one line.
pub proof fn lemma_lines_nonempty(s: Seq<char>)
    ensures
        lines_of(s).len() >= 1,
    decreases s.len(),
{
    if s.len() > 0 {
        lemma_lines_nonempty(s.drop_last());
    }
}

/// The lines of `text`, split at each `'\n'`.
pub fn split_lines(text: &str) -> (lines: Vec<&str>)
    ensures
        lines@.map_values(|l: &str| l@) == lines_of(text@),
{
    let n = text.unicode_len();
    let mut lines: Vec<&str> = Vec::new();
    let mut start: usize = 0;
    let mut i: usize = 0;
    proof {
        assert(text@.subrange(0, 0) =~= Seq::<char>::empty());
        assert(lines@.map_values(|l: &str| l@).push(text@.subrange(0, 0)) =~= lines_of(
            text@.subrange(0, 0),
        ));
    }
    while i < n
        invariant
            n == text@.len(),
            start <= i <= n,
            lines@.map_values(|l: &str| l@).push(text@.subrange(start as int, i as int)) == lines_of(
                text@.subrange(0, i as int),
            ),
        decreases n - i,
    {
        let c = text.get_char(i);
        let ghost pre = text@.subrange(0, i as int);
        let ghost cur = text@.subrange(0, i + 1);
        proof {
            assert(cur.drop_last() =~= pre);
            assert(cur.last() == c);
        }
        if c == '\n' {
            let line = text.substring_char(start, i);
            lines.push(line);
            proof {
                assert(text@.subrange((i + 1) as int, (i + 1) as int) =~= Seq::<char>::empty());
                assert(lines@.map_values(|l: &str| l@).push(text@.subrange((i + 1) as int, (i + 1) as int))
                    =~= lines_of(cur));
            }
            i = i + 1;
            start = i;
        } else {
            proof {
                assert(text@.subrange(start as int, i as int).push(c) =~= text@.subrange(start as int, i + 1));
                assert(lines@.map_values(|l: &str| l@).push(text@.subrange(start as int, i + 1))
                    =~= lines_of(cur));
            }
            i = i + 1;
        }
    }
    let last = text.substring_char(start, n);
    lines.push(last);
    proof {
        assert(text@.subrange(0, n as int) =~= text@);
        assert(lines@.map_values(|l: &str| l@) =~= lines_of(text@));
    }
    lines
}

/// Renders a timestamp or frame counter into I420 planes with a
/// `TextBurner`, clearing the chroma under the text to 128.
pub struct TimestampOverlay {
    burner: TextBurner,
    format: TimestampFormat,
}

impl TimestampOverlay {
    /// The text burner.
    pub closed spec fn burner_spec(&self) -> TextBurner {
        self.burner
    }

    /// The text format.
    pub closed spec fn format_spec(&self) -> TimestampFormat {
        self.format
    }

    /// Create a new overlay with the given text burner and format.
    pub fn new(burner: TextBurner, format: TimestampFormat) -> (o: Self)
        ensures
            o.burner_spec() == burner,
            o.format_spec() == format,
    {
        TimestampOverlay { burner, format }
    }

    /// Get the timestamp format.
    pub fn format(&self) -> (f: TimestampFormat)
        ensures
            f == self.format_spec(),
    {
        self.format
    }

    /// The overlay text for a microsecond timestamp and a frame counter.
    pub fn format_text(&self, ts_us: i64, frame_id: u32) -> (s: String)
        ensures
            s@ == overlay_text(self.format_spec(), ts_us, frame_id),
    {
        match self.format {
            TimestampFormat::DateTime => format_datetime(ts_us),
            TimestampFormat::FrameCount => format_frame_count(frame_id),
            TimestampFormat::Combined => {
                let mut t = format_datetime(ts_us);
                let fc = format_frame_count(frame_id);
                proof {
                    reveal_strlit("\n");
                }
                t.append("\n");
                t.append(fc.as_str());
                t
            },
        }
    }

    /// The burner's glyph cell width and height in pixels.
    pub open spec fn cell(&self) -> (int, int) {
        (6 * self.burner_spec().font_spec().sx(), 10 * self.burner_spec().font_spec().sy())
    }

    /// Width, height and top-left corner of the text block of `text` in a
    /// frame `h` high: the widest line's bytes times the cell width, the
    /// number of lines times the cell height, and the anchor's corner (the
    /// margin corner, the margin above the bottom edge for the whole
    /// block, or the explicit position as given).
    pub open spec fn block(&self, text: Seq<char>, h: int) -> (int, int, int, int) {
        let lines = lines_of(text);
        let tw = (max_line_bytes(lines, lines.len()) as u32) * self.cell().0;
        let th = (lines.len() as u32) * self.cell().1;
        let (ox, oy) = match self.burner_spec().anchor_spec() {
            Anchor::TopLeft => (MARGIN as int, MARGIN as int),
            Anchor::BottomLeft => (MARGIN as int, sat_sub(h, th + MARGIN)),
            Anchor::Position { x, y } => (x as int, y as int),
        };
        (tw, th, ox, oy)
    }

    /// Drawing `text` into a `w × h` frame stays within `u32` arithmetic.
    pub open spec fn block_computable(&self, text: Seq<char>, w: int, h: int) -> bool {
        let lines = lines_of(text);
        let (tw, th, ox, oy) = self.block(text, h);
        &&& self.cell().0 <= u32::MAX
        &&& self.cell().1 <= u32::MAX
        &&& (max_line_bytes(lines, lines.len()) as u32) * self.cell().0 <= u32::MAX
        &&& (lines.len() as u32) * self.cell().1 <= u32::MAX
        &&& lines.len() <= u32::MAX
        &&& (self.burner_spec().anchor_spec() is BottomLeft ==> th + MARGIN <= u32::MAX)
        &&& ox + tw <= u32::MAX
        &&& oy + th <= u32::MAX
        &&& forall|j: int|
            0 <= j < lines.len() ==> ox + text_steps(#[trigger] lines[j].len(), ox, self.cell().0, w)
                * self.cell().0 <= u32::MAX
    }

    /// The planes `y1`, `u1`, `v1` are `y0`, `u0`, `v0` with `text`
    /// burned into a `w × h` frame: unchanged for an empty text; otherwise
    /// the chroma under the text block cleared to 128 and each line drawn
    /// one cell height below the previous, from the block's corner.
    pub open spec fn burned(
        &self,
        text: Seq<char>,
        y0: Seq<u8>,
        u0: Seq<u8>,
        v0: Seq<u8>,
        y1: Seq<u8>,
        u1: Seq<u8>,
        v1: Seq<u8>,
        stride_y: int,
        stride_u: int,
        stride_v: int,
        w: int,
        h: int,
    ) -> bool {
        let (tw, th, ox, oy) = self.block(text, h);
        if text.len() == 0 {
            y1 == y0 && u1 == u0 && v1 == v0
        } else {
            &&& u1 == mark(u0, stride_u, clear_box(tw, th, ox, oy, w, h), 128)
            &&& v1 == mark(v0, stride_v, clear_box(tw, th, ox, oy, w, h), 128)
            &&& y1 == lines_luma(
                y0,
                stride_y,
                lines_of(text),
                lines_of(text).len(),
                ox,
                oy,
                self.cell(),
                self.burner_spec().font_spec().sx() as int,
                self.burner_spec().font_spec().sy() as int,
                w,
                h,
            )
        }
    }

    /// The planes of a frame hold the text's luma and chroma writes.
    pub open spec fn planes_hold(
        len_y: nat,
        len_u: nat,
        len_v: nat,
        stride_y: int,
        stride_u: int,
        stride_v: int,
        w: int,
        h: int,
    ) -> bool {
        &&& luma_fits(len_y, stride_y, w, h)
        &&& box_fits(len_u, stride_u, 0, 0, half_at_least_one(w), half_at_least_one(h))
        &&& box_fits(len_v, stride_v, 0, 0, half_at_least_one(w), half_at_least_one(h))
    }

    /// Whether the planes of a new packed `width × height` I420 buffer hold
    /// what burning the overlay writes.
    pub fn fits_packed(width: u32, height: u32) -> (b: bool)
        requires
            width * height <= u32::MAX,
        ensures
            b == Self::planes_hold(
                luma_size(width, height) as nat,
                chroma_size(width, height) as nat,
                chroma_size(width, height) as nat,
                width as int,
                (width / 2) as int,
                (width / 2) as int,
                width as int,
                height as int,
            ),
    {
        let hw: u32 = width / 2;
        let hh: u32 = height / 2;
        proof {
            lemma_packed_box(height as int, width as int, width as int, height as int);
            assert(luma_size(width, height) == height as int * width as int);
            assert(chroma_size(width, height) == hh as int * hw as int);
            lemma_packed_box(hh as int, hw as int, half_at_least_one(width as int), half_at_least_one(height as int));
        }
        hw > 0 && hh > 0
    }

    /// Render the overlay text for `ts_us` (microseconds since the Unix
    /// epoch) and `frame_id` into I420 planes.
    pub fn burn_i420(
        &self,
        y: &mut Vec<u8>,
        u: &mut Vec<u8>,
        v: &mut Vec<u8>,
        stride_y: usize,
        stride_u: usize,
        stride_v: usize,
        ts_us: i64,
        frame_id: u32,
        width: u32,
        height: u32,
    )
        requires
            overlay_text(self.format_spec(), ts_us, frame_id).len() > 0 ==> {
                &&& Self::planes_hold(old(y)@.len(), old(u)@.len(), old(v)@.len(), stride_y as int, stride_u as int, stride_v as int, width as int, height as int)
                &&& self.block_computable(overlay_text(self.format_spec(), ts_us, frame_id), width as int, height as int)
            },
        ensures
            final(y)@.len() == old(y)@.len(),
            final(u)@.len() == old(u)@.len(),
            final(v)@.len() == old(v)@.len(),
            self.burned(
                overlay_text(self.format_spec(), ts_us, frame_id),
                old(y)@,
                old(u)@,
                old(v)@,
                final(y)@,
                final(u)@,
                final(v)@,
                stride_y as int,
                stride_u as int,
                stride_v as int,
                width as int,
                height as int,
            ),
    {
        let text = self.format_text(ts_us, frame_id);
        self.burn_text(y, u, v, stride_y, stride_u, stride_v, text.as_str(), width, height);
    }

    /// Like `burn_i420`, but first checks that the text block of this
    /// timestamp's text can be laid out without overflow; where it cannot,
    /// the planes are left unchanged and `false` is returned.
    pub fn burn_i420_checked(
        &self,
        y: &mut Vec<u8>,
        u: &mut Vec<u8>,
        v: &mut Vec<u8>,
        stride_y: usize,
        stride_u: usize,
        stride_v: usize,
        ts_us: i64,
        frame_id: u32,
        width: u32,
        height: u32,
    ) -> (drawn: bool)
        requires
            Self::planes_hold(old(y)@.len(), old(u)@.len(), old(v)@.len(), stride_y as int, stride_u as int, stride_v as int, width as int, height as int),
        ensures
            final(y)@.len() == old(y)@.len(),
            final(u)@.len() == old(u)@.len(),
            final(v)@.len() == old(v)@.len(),
            drawn == (overlay_text(self.format_spec(), ts_us, frame_id).len() == 0
                || self.block_computable(overlay_text(self.format_spec(), ts_us, frame_id), width as int, height as int)),
            drawn ==> self.burned(
                overlay_text(self.format_spec(), ts_us, frame_id),
                old(y)@,
                old(u)@,
                old(v)@,
                final(y)@,
                final(u)@,
                final(v)@,
                stride_y as int,
                stride_u as int,
                stride_v as int,
                width as int,
                height as int,
            ),
            !drawn ==> final(y)@ == old(y)@ && final(u)@ == old(u)@ && final(v)@ == old(v)@,
    {
        let text = self.format_text(ts_us, frame_id);
        if text.unicode_len() > 0 && !self.block_fits(text.as_str(), width, height) {
            return false;
        }
        self.burn_i420(y, u, v, stride_y, stride_u, stride_v, ts_us, frame_id, width, height);
        true
    }

    /// Whether `text` can be laid out in a `width × height` frame without
    /// overflow: exactly `block_computable`.
    pub fn block_fits(&self, text: &str, width: u32, height: u32) -> (b: bool)
        ensures
            b == self.block_computable(text@, width as int, height as int),
    {
        let font = self.burner.font();
        let sx = font.scale_x();
        let sy = font.scale_y();
        if sx > u32::MAX / 6 || sy > u32::MAX / 10 {
            return false;
        }
        let glyph_w = 6 * sx;
        let glyph_h = 10 * sy;
        let lines = split_lines(text);
        let ghost ls = lines_of(text@);
        if lines.len() > u32::MAX as usize {
            return false;
        }
        let widest = widest_line(&lines);
        let wb = (widest as u32) as u64;
        let lc = (lines.len() as u32) as u64;
        proof {
            assert(wb * (glyph_w as u64) <= u32::MAX * u32::MAX) by (nonlinear_arith)
                requires
                    wb <= u32::MAX,
                    glyph_w <= u32::MAX,
            ;
            assert(lc * (glyph_h as u64) <= u32::MAX * u32::MAX) by (nonlinear_arith)
                requires
                    lc <= u32::MAX,
                    glyph_h <= u32::MAX,
            ;
        }
        let tw = wb * glyph_w as u64;
        let th = lc * glyph_h as u64;
        if tw > u32::MAX as u64 || th > u32::MAX as u64 {
            return false;
        }
        let tw = tw as u32;
        let th = th as u32;
        let (ox, oy) = match self.burner.anchor() {
            Anchor::TopLeft => (MARGIN, MARGIN),
            Anchor::BottomLeft => {
                if th as u64 + MARGIN as u64 > u32::MAX as u64 {
                    return false;
                }
                (MARGIN, height.saturating_sub(th + MARGIN))
            },
            Anchor::Position { x, y } => (x, y),
        };
        assert(ls.len() == lines@.len());
        assert(tw == self.block(text@, height as int).0);
        assert(th == self.block(text@, height as int).1);
        assert(ox == self.block(text@, height as int).2);
        assert(oy == self.block(text@, height as int).3);
        if ox as u64 + tw as u64 > u32::MAX as u64 || oy as u64 + th as u64 > u32::MAX as u64 {
            return false;
        }
        let mut j: usize = 0;
        while j < lines.len()
            invariant
                j <= lines@.len(),
                lines@.map_values(|l: &str| l@) == ls,
                ls == lines_of(text@),
                glyph_w == self.cell().0,
                ox == self.block(text@, height as int).2,
                forall|k: int|
                    0 <= k < j ==> ox + text_steps(#[trigger] ls[k].len(), ox as int, self.cell().0, width as int)
                        * self.cell().0 <= u32::MAX,
            decreases lines@.len() - j,
        {
            proof {
                assert(lines@.map_values(|l: &str| l@)[j as int] == lines@[j as int]@);
            }
            let n = lines[j].unicode_len();
            if !steps_fit(n, ox, glyph_w, width) {
                assert(ls[j as int].len() == n);
                return false;
            }
            j = j + 1;
        }
        true
    }

    /// Render `text` into I420 planes: the chroma under the text block
    /// cleared to 128, then each line drawn one cell height below the
    /// previous, from the block's corner.
    fn burn_text(
        &self,
        y: &mut Vec<u8>,
        u: &mut Vec<u8>,
        v: &mut Vec<u8>,
        stride_y: usize,
        stride_u: usize,
        stride_v: usize,
        text: &str,
        width: u32,
        height: u32,
    )
        requires
            text@.len() > 0 ==> {
                &&& luma_fits(old(y)@.len(), stride_y as int, width as int, height as int)
                &&& box_fits(old(u)@.len(), stride_u as int, 0, 0, half_at_least_one(width as int), half_at_least_one(height as int))
                &&& box_fits(old(v)@.len(), stride_v as int, 0, 0, half_at_least_one(width as int), half_at_least_one(height as int))
                &&& self.block_computable(text@, width as int, height as int)
            },
        ensures
            final(y)@.len() == old(y)@.len(),
            final(u)@.len() == old(u)@.len(),
            final(v)@.len() == old(v)@.len(),
            self.burned(
                text@,
                old(y)@,
                old(u)@,
                old(v)@,
                final(y)@,
                final(u)@,
                final(v)@,
                stride_y as int,
                stride_u as int,
                stride_v as int,
                width as int,
                height as int,
            ),
    {
        if text.unicode_len() == 0 {
            return ;
        }
        let ghost txt = text@;
        let lines = split_lines(text);
        let ghost ls = lines_of(txt);
        proof {
            lemma_lines_nonempty(txt);
        }
        let font = self.burner.font();
        let glyph_w = font.glyph_width_px();
        let glyph_h = font.glyph_height_px();
        let line_count = lines.len() as u32;
        let widest = widest_line(&lines);
        let text_w = (widest as u32) * glyph_w;
        let text_h = line_count * glyph_h;
        let (ox, oy) = match self.burner.anchor() {
            Anchor::TopLeft => (MARGIN, MARGIN),
            Anchor::BottomLeft => (MARGIN, height.saturating_sub(text_h + MARGIN)),
            Anchor::Position { x, y } => (x, y),
        };
        let half_w = width / 2;
        let half_h = height / 2;
        let lim_x = if half_w > 1 { half_w } else { 1 };
        let lim_y = if half_h > 1 { half_h } else { 1 };
        let u_end_x = if (ox + text_w) / 2 < lim_x { (ox + text_w) / 2 } else { lim_x };
        let u_end_y = if (oy + text_h) / 2 < lim_y { (oy + text_h) / 2 } else { lim_y };
        let sx_cap = u_end_x.saturating_sub(1);
        let sy_cap = u_end_y.saturating_sub(1);
        let u_start_x = if ox / 2 < sx_cap { ox / 2 } else { sx_cap };
        let u_start_y = if oy / 2 < sy_cap { oy / 2 } else { sy_cap };
        proof {
            lemma_box_fits_sub(u@.len(), stride_u as int, half_at_least_one(width as int), half_at_least_one(height as int), u_start_x as int, u_start_y as int, u_end_x as int, u_end_y as int);
            lemma_box_fits_sub(v@.len(), stride_v as int, half_at_least_one(width as int), half_at_least_one(height as int), u_start_x as int, u_start_y as int, u_end_x as int, u_end_y as int);
        }
        fill_box(u, stride_u, u_start_x as usize, u_start_y as usize, u_end_x as usize, u_end_y as usize, 128);
        fill_box(v, stride_v, u_start_x as usize, u_start_y as usize, u_end_x as usize, u_end_y as usize, 128);
        let ghost y0 = y@;
        let mut i: usize = 0;
        while i < lines.len()
            invariant
                i <= lines@.len(),
                lines@.map_values(|l: &str| l@) == ls,
                ls == lines_of(txt),
                ls.len() <= u32::MAX,
                line_count == ls.len(),
                glyph_w == self.cell().0,
                glyph_h == self.cell().1,
                text_h == line_count * glyph_h,
                oy + text_h <= u32::MAX,
                *font == self.burner_spec().font_spec(),
                luma_fits(y0.len(), stride_y as int, width as int, height as int),
                forall|k: int|
                    0 <= k < ls.len() ==> ox + text_steps(#[trigger] ls[k].len(), ox as int, self.cell().0, width as int)
                        * self.cell().0 <= u32::MAX,
                y@.len() == y0.len(),
                y@ == lines_luma(
                    y0,
                    stride_y as int,
                    ls,
                    i as nat,
                    ox as int,
                    oy as int,
                    self.cell(),
                    font.sx() as int,
                    font.sy() as int,
                    width as int,
                    height as int,
                ),
            decreases lines@.len() - i,
        {
            proof {
                assert(lines@.map_values(|l: &str| l@)[i as int] == lines@[i as int]@);
                assert(i * glyph_h <= line_count * glyph_h) by (nonlinear_arith)
                    requires
                        i < line_count,
                        glyph_h >= 0,
                ;
            }
            let line_oy = oy + (i as u32) * glyph_h;
            let _ = font.draw_text(y, stride_y, lines[i], ox, line_oy, width, height);
            i = i + 1;
        }
    }
}

/// The widest of the first `k` lines, in UTF-8 bytes (as the `usize`
/// that `str::len` gives).
pub open spec fn max_line_bytes(lines: Seq<Seq<char>>, k: nat) -> nat
    decreases k,
{
    if k == 0 {
        0
    } else {
        let prev = max_line_bytes(lines, (k - 1) as nat);
        let b = (vstd::utf8::encode_utf8(lines[k - 1]).len() as usize) as nat;
        if b > prev { b } else { prev }
    }
}

/// The chroma box cleared under a text block of `tw × th` at `(ox, oy)` in
/// a `w × h` frame: the block halved, clipped to the half-size planes (at
/// least one pixel wide and high), and holding at least one chroma pixel.
pub open spec fn clear_box(tw: int, th: int, ox: int, oy: int, w: int, h: int) -> spec_fn(int, int) -> bool {
    let ex = min_int((ox + tw) / 2, half_at_least_one(w));
    let ey = min_int((oy + th) / 2, half_at_least_one(h));
    in_box(min_int(ox / 2, sat_sub(ex, 1)), min_int(oy / 2, sat_sub(ey, 1)), ex, ey)
}

/// The luma plane after drawing the first `k` lines, line `j` at
/// `(ox, oy + j * cell height)`.
pub open spec fn lines_luma(
    s: Seq<u8>,
    stride: int,
    lines: Seq<Seq<char>>,
    k: nat,
    ox: int,
    oy: int,
    cell: (int, int),
    sx: int,
    sy: int,
    w: int,
    h: int,
) -> Seq<u8>
    decreases k,
{
    if k == 0 {
        s
    } else {
        let j = k - 1;
        let line = lines[j];
        let top = oy + j * cell.1;
        mark(
            lines_luma(s, stride, lines, (k - 1) as nat, ox, oy, cell, sx, sy, w, h),
            stride,
            |a: int, b: int| text_pixel(line, text_steps(line.len(), ox, cell.0, w), ox, top, cell.0, sx, sy, w, h, a, b),
            INK,
        )
    }
}

/// The widest line, in bytes.
fn widest_line(lines: &Vec<&str>) -> (widest: usize)
    ensures
        widest == max_line_bytes(lines@.map_values(|l: &str| l@), lines@.len()),
{
    let ghost ls = lines@.map_values(|l: &str| l@);
    let mut widest: usize = 0;
    let mut j: usize = 0;
    while j < lines.len()
        invariant
            j <= lines@.len(),
            ls == lines@.map_values(|l: &str| l@),
            widest == max_line_bytes(ls, j as nat),
        decreases lines@.len() - j,
    {
        proof {
            assert(ls[j as int] == lines@[j as int]@);
        }
        let len = lines[j].len();
        if len > widest {
            widest = len;
        }
        j = j + 1;
    }
    widest
}

/// Whether the cursor after drawing a line of `n` characters from `ox`,
/// `step` pixels per character, stops at or below `u32::MAX`.
fn steps_fit(n: usize, ox: u32, step: u32, width: u32) -> (b: bool)
    ensures
        b == (ox + text_steps(n as nat, ox as int, step as int, width as int) * step <= u32::MAX),
{
    let mut cursor: u64 = ox as u64;
    let mut left: usize = n;
    let ghost mut m: nat = 0;
    loop
        invariant_except_break
            left <= n,
            m + left == n,
            cursor == ox + m * step,
            cursor < width || m == 0,
            text_steps(n as nat, ox as int, step as int, width as int) == m + text_steps(left as nat, cursor as int, step as int, width as int),
        ensures
            cursor == ox + text_steps(n as nat, ox as int, step as int, width as int) * step,
        decreases left,
    {
        if left == 0 {
            break;
        }
        proof {
            assert(ox + (m + 1) * step == cursor + step) by (nonlinear_arith)
                requires
                    cursor == ox + m * step,
            ;
        }
        cursor = cursor + step as u64;
        left = left - 1;
        proof {
            m = m + 1;
        }
        if cursor >= width as u64 {
            break;
        }
    }
    cursor <= u32::MAX as u64
}

/// The value of a decimal digit character.
pub open spec fn digit_value(c: char) -> int {
    c as int - '0' as int
}

/// The frame counter text is six decimal digits whose value is the counter
/// modulo one million.
pub proof fn law_frame_count_digits(frame_id: u32)
    ensures
        frame_count_text(frame_id).len() == 6,
        forall|i: int| 0 <= i < 6 ==> '0' <= #[trigger] frame_count_text(frame_id)[i] <= '9',
        ({
            let t = frame_count_text(frame_id);
            digit_value(t[0]) * 100_000 + digit_value(t[1]) * 10_000 + digit_value(t[2]) * 1_000
                + digit_value(t[3]) * 100 + digit_value(t[4]) * 10 + digit_value(t[5])
        }) == frame_id % 1_000_000,
{
    let n = (frame_id % 1_000_000) as int;
    let t = frame_count_text(frame_id);
    assert forall|d: int| 0 <= d < 10 implies #[trigger] digit_value(digit_char(d)) == d by {}
    assert(digit_value(t[0]) == n / 100_000 % 10);
    assert(digit_value(t[1]) == n / 10_000 % 10);
    assert(digit_value(t[2]) == n / 1_000 % 10);
    assert(digit_value(t[3]) == n / 100 % 10);
    assert(digit_value(t[4]) == n / 10 % 10);
    assert(digit_value(t[5]) == n % 10);
    assert(n / 100_000 % 10 * 100_000 + n / 10_000 % 10 * 10_000 + n / 1_000 % 10 * 1_000 + n / 100 % 10 * 100
        + n / 10 % 10 * 10 + n % 10 == n) by (nonlinear_arith)
        requires
            0 <= n < 1_000_000,
    ;
}

} // verus!
