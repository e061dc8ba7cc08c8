//! Re-encoding video: encoder options and the timestamps of decoded frames.
use vstd::prelude::*;

use super::config::VideoConfig;
use super::timing;
use super::timing::TimeBase;
use crate::{list, text};

verus! {

/// The codec-private options of a video encoder, in the order in which they are
/// set; a later entry overrides an earlier one with the same key.
pub open spec fn option_entries(
    crf: Option<u32>,
    preset: Option<Seq<char>>,
    extra: Seq<(Seq<char>, Seq<char>)>,
) -> Seq<(Seq<char>, Seq<char>)> {
    let quality = match crf {
        Some(crf) => seq![("crf"@, text::decimal(crf as nat))],
        None => Seq::empty(),
    };
    let speed = match preset {
        Some(preset) => seq![("preset"@, preset)],
        None => Seq::empty(),
    };
    quality + speed + extra
}

/// The codec-private options of a video encoder.
pub fn encoder_options(
    crf: Option<u32>,
    preset: &Option<String>,
    extra_options: &Vec<(String, String)>,
) -> (r: Vec<(String, String)>)
    ensures
        r.deep_view() == option_entries(crf, preset.deep_view(), extra_options.deep_view()),
{
    let mut options: Vec<(String, String)> = list::empty();
    if let Some(crf) = crf {
        list::push(&mut options, ("crf".to_owned(), text::decimal_text(crf as u64)));
    }
    if let Some(preset) = preset {
        list::push(&mut options, ("preset".to_owned(), preset.clone()));
    }
    let ghost head = options.deep_view();
    let ghost extra = extra_options.deep_view();
    let mut i: usize = 0;
    assert(head =~= head + extra.take(0));
    while i < extra_options.len()
        invariant
            i <= extra_options.len(),
            extra == extra_options.deep_view(),
            options.deep_view() == head + extra.take(i as int),
        decreases extra_options.len() - i,
    {
        assert(extra[i as int] == extra_options[i as int].deep_view());
        list::push(&mut options, (extra_options[i].0.clone(), extra_options[i].1.clone()));
        assert(options.deep_view() =~= head + extra.take(i + 1));
        i = i + 1;
    }
    assert(options.deep_view() =~= option_entries(crf, preset.deep_view(), extra));
    options
}

/// The expected length of a frame in ticks of the input's time base, none where
/// the frame rate is not known.
pub open spec fn frame_ticks(time_base: TimeBase, frame_rate: Option<(i32, i32)>) -> Option<int> {
    match frame_rate {
        Some((num, den)) if num > 0 && den > 0 => Some(
            timing::quotient(time_base.den * den, time_base.num * num),
        ),
        _ => None,
    }
}

/// The timestamps of decoded frames: they start from 0, and a jump of more than
/// a second is closed.
#[derive(Clone, Copy, Debug, PartialEq, Eq, Structural)]
pub struct FrameClock {
    /// First PTS seen, used to normalize timestamps to start from 0
    pub first_pts: Option<i64>,
    /// Where the next frame should stand, 0 where nothing is expected.
    pub expected_next_pts: i64,
    /// PTS discontinuity correction
    pub pts_correction: i64,
    pub frame_duration: Option<i64>,
    pub time_base: TimeBase,
}

impl FrameClock {
    /// Has the clock seen no frame?
    pub open spec fn is_fresh(self, time_base: TimeBase, frame_rate: Option<(i32, i32)>) -> bool {
        &&& self.first_pts is None
        &&& self.expected_next_pts == 0
        &&& self.pts_correction == 0
        &&& match self.frame_duration {
            Some(duration) => frame_ticks(time_base, frame_rate) == Some(duration as int),
            None => frame_ticks(time_base, frame_rate) is None,
        }
        &&& self.time_base == time_base
    }

    /// A clock that has seen no frame.
    pub fn new(time_base: TimeBase, frame_rate: Option<(i32, i32)>) -> (r: Self)
        requires
            time_base.num != 0 || frame_ticks(time_base, frame_rate) is None,
        ensures
            r.is_fresh(time_base, frame_rate),
    {
        let frame_duration: Option<i64> = match frame_rate {
            Some((num, den)) if num > 0 && den > 0 => {
                assert(-0x4000_0000_0000_0000 <= time_base.den * den <= 0x4000_0000_0000_0000)
                    by (nonlinear_arith)
                    requires
                        0 < den <= 0x7fff_ffff,
                        -0x8000_0000 <= time_base.den <= 0x7fff_ffff,
                ;
                assert(-0x4000_0000_0000_0000 <= time_base.num * num <= 0x4000_0000_0000_0000
                    && time_base.num * num != 0) by (nonlinear_arith)
                    requires
                        0 < num <= 0x7fff_ffff,
                        -0x8000_0000 <= time_base.num <= 0x7fff_ffff,
                        time_base.num != 0,
                ;
                Some(
                    timing::truncated_quotient(
                        time_base.den as i64 * den as i64,
                        time_base.num as i64 * num as i64,
                    ),
                )
            },
            _ => None,
        };
        FrameClock {
            first_pts: None,
            expected_next_pts: 0,
            pts_correction: 0,
            frame_duration,
            time_base,
        }
    }

    /// How far a frame lies from where it is expected; `raw_pts` counts from the
    /// first frame.
    pub open spec fn gap(self, raw_pts: int) -> int {
        raw_pts + self.pts_correction - self.expected_next_pts
    }

    /// Does the frame lie more than a second from where it is expected?
    pub open spec fn jumps(self, raw_pts: int) -> bool {
        self.expected_next_pts != 0 && timing::magnitude(self.gap(raw_pts))
            > self.time_base.second()
    }

    /// The correction in force after a frame.
    pub open spec fn corrected(self, raw_pts: int) -> int {
        if self.jumps(raw_pts) {
            self.pts_correction - self.gap(raw_pts)
        } else {
            self.pts_correction as int
        }
    }

    /// The timestamp that a frame leaves with.
    pub open spec fn adjusted(self, raw_pts: int) -> int {
        raw_pts + self.corrected(raw_pts)
    }

    /// No sum or difference on the way leaves the range of a timestamp.
    pub open spec fn adjustable(self, raw_pts: int) -> bool {
        &&& timing::fits(raw_pts)
        &&& timing::fits(raw_pts + self.pts_correction)
        &&& self.expected_next_pts != 0 ==> timing::fits(self.gap(raw_pts)) && timing::fits(
            -self.gap(raw_pts),
        )
        &&& timing::fits(self.corrected(raw_pts))
        &&& timing::fits(self.adjusted(raw_pts))
        &&& self.frame_duration matches Some(duration) ==> timing::fits(
            self.adjusted(raw_pts) + duration,
        )
    }

    /// The clock after a frame. Without a frame rate nothing is ever expected.
    pub open spec fn after(self, raw_pts: int) -> FrameClock {
        FrameClock {
            expected_next_pts: match self.frame_duration {
                Some(duration) => (self.adjusted(raw_pts) + duration) as i64,
                None => self.expected_next_pts,
            },
            pts_correction: self.corrected(raw_pts) as i64,
            ..self
        }
    }

    /// Detect and correct PTS discontinuities. Returns corrected PTS (relative to first_pts=0).
    pub fn adjust_pts(&mut self, raw_pts: i64) -> (r: i64)
        requires
            old(self).adjustable(raw_pts as int),
        ensures
            r == old(self).adjusted(raw_pts as int),
            *final(self) == old(self).after(raw_pts as int),
    {
        let corrected: i64 = raw_pts + self.pts_correction;

        // Detect discontinuity: if the gap between expected and actual exceeds 1 second
        // in timebase units, apply a correction.
        if self.expected_next_pts != 0 {
            let diff: i64 = corrected - self.expected_next_pts;
            let one_sec: i64 = self.time_base.ticks_per_second();
            if diff > one_sec || -diff > one_sec {
                self.pts_correction = self.pts_correction - diff;
                let mended: i64 = raw_pts + self.pts_correction;
                if let Some(dur) = self.frame_duration {
                    self.expected_next_pts = mended + dur;
                }
                return mended;
            }
        }
        if let Some(dur) = self.frame_duration {
            self.expected_next_pts = corrected + dur;
        }
        corrected
    }

    /// The PTS of the first frame, which may be this one.
    pub open spec fn origin(self, pts: i64) -> i64 {
        match self.first_pts {
            Some(first) => first,
            None => pts,
        }
    }

    /// Normalize PTS to start from 0 and close discontinuities.
    pub fn normalize(&mut self, pts: i64) -> (r: i64)
        requires
            old(self).adjustable(pts - old(self).origin(pts)),
        ensures
            r == old(self).adjusted(pts - old(self).origin(pts)),
            *final(self) == (FrameClock {
                first_pts: Some(old(self).origin(pts)),
                ..old(self).after(pts - old(self).origin(pts))
            }),
    {
        let first: i64 = match self.first_pts {
            Some(first) => first,
            None => pts,
        };
        let r: i64 = self.adjust_pts(pts - first);
        self.first_pts = Some(first);
        r
    }

    /// Can the frame be normalized without leaving the range of a timestamp?
    pub fn can_normalize(&self, pts: i64) -> (r: bool)
        ensures
            r == self.adjustable(pts - self.origin(pts)),
    {
        let first: i64 = match self.first_pts {
            Some(first) => first,
            None => pts,
        };
        let raw: i128 = pts as i128 - first as i128;
        let correction: i128 = self.pts_correction as i128;
        if !timing::in_range(raw) || !timing::in_range(raw + correction) {
            return false;
        }
        let mut corrected: i128 = correction;
        if self.expected_next_pts != 0 {
            let gap: i128 = raw + correction - self.expected_next_pts as i128;
            if !timing::in_range(gap) || !timing::in_range(-gap) {
                return false;
            }
            let one_sec: i128 = self.time_base.ticks_per_second() as i128;
            if gap > one_sec || -gap > one_sec {
                corrected = correction - gap;
            }
        }
        let adjusted: i128 = raw + corrected;
        if !timing::in_range(corrected) || !timing::in_range(adjusted) {
            return false;
        }
        match self.frame_duration {
            Some(duration) => timing::in_range(adjusted + duration as i128),
            None => true,
        }
    }
}

/// How the colours of a video are to be read, in the codec library's numbers.
#[derive(Clone, Copy, Debug, PartialEq, Eq, Structural)]
pub struct ColorTags {
    pub primaries: i32,
    pub trc: i32,
    pub space: i32,
    pub range: i32,
}

/// What the decoder and the input stream say of a video. The pixel format is the
/// codec library's number.
#[derive(Clone, Copy, Debug)]
pub struct VideoSource {
    pub pixel_format: i32,
    pub width: u32,
    pub height: u32,
    pub time_base: TimeBase,
    pub frame_rate: Option<(i32, i32)>,
    pub color: ColorTags,
}

/// How a video is re-encoded.
#[derive(Debug)]
pub struct VideoSetup {
    /// Do frames have to be converted before they are encoded?
    pub needs_scaler: bool,
    pub pixel_format: i32,
    pub width: u32,
    pub height: u32,
    pub time_base: TimeBase,
    pub frame_rate: Option<(i32, i32)>,
    pub color: ColorTags,
    /// Do the codec's headers go into the container's?
    pub global_header: bool,
    pub options: Vec<(String, String)>,
    pub clock: FrameClock,
}

/// Sets up the re-encoding of a video: size, time base, frame rate and colours
/// stay, the pixel format becomes the target's.
pub fn set_up_video(
    source: VideoSource,
    target_format: i32,
    config: &VideoConfig,
    needs_global_header: bool,
) -> (r: VideoSetup)
    requires
        source.time_base.num != 0 || frame_ticks(source.time_base, source.frame_rate) is None,
    ensures
        r.needs_scaler == (source.pixel_format != target_format),
        r.pixel_format == target_format,
        r.width == source.width,
        r.height == source.height,
        r.time_base == source.time_base,
        r.frame_rate == source.frame_rate,
        r.color == source.color,
        r.global_header == needs_global_header,
        r.options.deep_view() == option_entries(
            config.crf,
            config.preset.deep_view(),
            config.extra_options.deep_view(),
        ),
        r.clock.is_fresh(source.time_base, source.frame_rate),
{
    VideoSetup {
        needs_scaler: source.pixel_format != target_format,
        pixel_format: target_format,
        width: source.width,
        height: source.height,
        time_base: source.time_base,
        frame_rate: source.frame_rate,
        color: source.color,
        global_header: needs_global_header,
        options: encoder_options(config.crf, &config.preset, &config.extra_options),
        clock: FrameClock::new(source.time_base, source.frame_rate),
    }
}

/// The first frame leaves with timestamp 0.
pub proof fn first_frame_starts_at_zero(
    clock: FrameClock,
    time_base: TimeBase,
    frame_rate: Option<(i32, i32)>,
    pts: i64,
)
    requires
        clock.is_fresh(time_base, frame_rate),
    ensures
        clock.adjusted(pts - clock.origin(pts)) == 0,
{
}

/// A frame more than a second away from where it is expected is put exactly
/// there, and every other frame keeps its distance from the frame before.
pub proof fn jumps_are_closed(clock: FrameClock, raw_pts: int, next_pts: int)
    requires
        clock.adjustable(raw_pts),
    ensures
        clock.jumps(raw_pts) ==> clock.adjusted(raw_pts) == clock.expected_next_pts,
        !clock.after(raw_pts).jumps(next_pts) ==> clock.after(raw_pts).adjusted(next_pts)
            - clock.adjusted(raw_pts) == next_pts - raw_pts,
{
}

/// A frame lasts as many ticks as fit into it: with `num / den` frames a second and
/// a time base of `tb.num / tb.den` seconds a tick.
pub proof fn frames_last_their_time(time_base: TimeBase, num: i32, den: i32)
    requires
        time_base.num > 0,
        time_base.den >= 0,
    ensures
        num > 0 && den > 0 ==> (frame_ticks(time_base, Some((num, den))) matches Some(ticks)
            && ticks * (time_base.num * num) <= time_base.den * den < (ticks + 1) * (time_base.num
            * num)),
        num <= 0 || den <= 0 ==> frame_ticks(time_base, Some((num, den))) is None,
        frame_ticks(time_base, None) is None,
{
    if num > 0 && den > 0 {
        let a = time_base.den * den;
        let b = time_base.num * num;
        assert(a >= 0 && b > 0) by (nonlinear_arith)
            requires
                time_base.den >= 0,
                den > 0,
                time_base.num > 0,
                num > 0,
                a == time_base.den * den,
                b == time_base.num * num,
        ;
        timing::quotients_divide(a, b);
    }
}

/// A frame no more than a second off where it is expected keeps its place behind
/// the first one, moved by the correction; where frames have a length, the next is
/// expected that much later, and one that comes just then keeps the distance.
pub proof fn ordinary_frames_are_only_moved(clock: FrameClock, raw_pts: int, duration: i64)
    requires
        clock.adjustable(raw_pts),
        clock.time_base.num > 0,
        clock.time_base.den >= 0,
        clock.frame_duration == Some(duration),
        clock.expected_next_pts == 0 || -clock.time_base.den <= (raw_pts + clock.pts_correction
            - clock.expected_next_pts) * clock.time_base.num <= clock.time_base.den,
    ensures
        clock.adjusted(raw_pts) == raw_pts + clock.pts_correction,
        clock.after(raw_pts).expected_next_pts == clock.adjusted(raw_pts) + duration,
        clock.after(raw_pts).pts_correction == clock.pts_correction,
        clock.after(raw_pts).adjusted(raw_pts + duration) == clock.adjusted(raw_pts) + duration,
{
    timing::seconds_are_measured(clock.time_base);
    let gap = clock.gap(raw_pts);
    let second = clock.time_base.second();
    let n = clock.time_base.num as int;
    let d = clock.time_base.den as int;
    if clock.expected_next_pts != 0 {
        assert(-second <= gap <= second) by (nonlinear_arith)
            requires
                -d <= gap * n <= d,
                d < (second + 1) * n,
                n > 0,
        ;
    }
}

/// A frame more than a second off is put where it was expected.
pub proof fn jumping_frames_are_pulled_back(clock: FrameClock, raw_pts: int)
    requires
        clock.adjustable(raw_pts),
        clock.time_base.num > 0,
        clock.time_base.den >= 0,
        clock.expected_next_pts != 0,
        timing::magnitude(raw_pts + clock.pts_correction - clock.expected_next_pts)
            * clock.time_base.num > clock.time_base.den,
    ensures
        clock.adjusted(raw_pts) == clock.expected_next_pts,
        clock.after(raw_pts).pts_correction == clock.expected_next_pts - raw_pts,
        clock.frame_duration matches Some(duration) ==> clock.after(raw_pts).expected_next_pts
            == clock.expected_next_pts + duration,
{
    timing::seconds_are_measured(clock.time_base);
    let gap = timing::magnitude(clock.gap(raw_pts));
    let second = clock.time_base.second();
    let n = clock.time_base.num as int;
    let d = clock.time_base.den as int;
    assert(gap > second) by (nonlinear_arith)
        requires
            gap * n > d,
            second * n <= d,
            n > 0,
    ;
}

/// An encoder gets the quality, then the preset, as far as they are asked for, and
/// after them whatever else is.
pub proof fn encoders_get_what_was_asked(
    crf: u32,
    preset: Seq<char>,
    extra: Seq<(Seq<char>, Seq<char>)>,
)
    ensures
        option_entries(None, None, extra) == extra,
        option_entries(Some(crf), None, extra) == seq![("crf"@, text::decimal(crf as nat))] + extra,
        option_entries(None, Some(preset), extra) == seq![("preset"@, preset)] + extra,
        option_entries(Some(crf), Some(preset), extra) == seq![
            ("crf"@, text::decimal(crf as nat)),
            ("preset"@, preset),
        ] + extra,
{
    let none = Seq::<(Seq<char>, Seq<char>)>::empty();
    assert(none + none + extra =~= extra);
}

} // verus!
