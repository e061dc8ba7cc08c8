//! The run of one transcode: which output streams are made, what happens to
//! each packet, and how the timestamps of copied packets are mended.
use vstd::prelude::*;

use super::config::{AudioAction, AudioConfig, ContainerFormat, SubtitleConfig, VideoCodec, VideoConfig};
use super::error::TranscodeError;
use super::timing::TimeBase;
use super::{config, error, timing};
use crate::{list, text};

verus! {

/// Tracks PTS for copy streams to detect and correct discontinuities.
#[derive(Clone, Copy, Debug, PartialEq, Eq, Structural)]
pub struct CopyPtsTracker {
    /// Single normalization offset applied to both PTS and DTS, anchored on
    /// the first timestamp seen. Using one offset preserves pts >= dts for
    /// B-frame streams, which separate per-field offsets would break.
    pub offset: Option<i64>,
    /// The timestamp last handed out, 0 where none is expected.
    pub expected_next_pts: i64,
    pub pts_correction: i64,
    pub last_pts: i64,
    /// Approximate time base denominator / numerator for 1-second threshold
    pub one_sec_threshold: i64,
}

/// A timestamp after the offset and the correction.
pub open spec fn shifted(stamp: Option<i64>, offset: int, correction: int) -> Option<int> {
    match stamp {
        Some(t) => Some(t - offset + correction),
        None => None,
    }
}

/// The pair of timestamps of a packet as mathematical integers.
pub open spec fn stamps(pts: Option<i64>, dts: Option<i64>) -> (Option<int>, Option<int>) {
    (shifted(pts, 0, 0), shifted(dts, 0, 0))
}

/// Does a timestamp fit after the offset is taken off and again after the
/// correction is put on?
pub open spec fn shift_fits(stamp: Option<i64>, offset: int, correction: int) -> bool {
    match stamp {
        Some(t) => timing::fits(t - offset) && timing::fits(t - offset + correction),
        None => true,
    }
}

/// Takes the offset off a timestamp and puts the correction on.
fn shift(stamp: Option<i64>, offset: i64, correction: i64) -> (r: Option<i64>)
    requires
        shift_fits(stamp, offset as int, correction as int),
    ensures
        shifted(r, 0, 0) == shifted(stamp, offset as int, correction as int),
{
    match stamp {
        Some(t) => Some(t - offset + correction),
        None => None,
    }
}

impl CopyPtsTracker {
    /// A tracker that has seen no packet.
    pub open spec fn fresh(time_base: TimeBase) -> CopyPtsTracker {
        CopyPtsTracker {
            offset: None,
            expected_next_pts: 0,
            pts_correction: 0,
            last_pts: 0,
            one_sec_threshold: time_base.second() as i64,
        }
    }

    /// The one-second threshold comes from a time base.
    pub open spec fn well_formed(self) -> bool {
        -0x8000_0000 <= self.one_sec_threshold <= 0x8000_0000
    }

    pub fn new(time_base: TimeBase) -> (r: Self)
        ensures
            r == CopyPtsTracker::fresh(time_base),
            r.one_sec_threshold == time_base.second(),
            r.well_formed(),
    {
        CopyPtsTracker {
            offset: None,
            expected_next_pts: 0,
            pts_correction: 0,
            last_pts: 0,
            one_sec_threshold: time_base.ticks_per_second(),
        }
    }

    /// The offset in force for a packet: the one set before, else the packet's
    /// own DTS, else its PTS.
    pub open spec fn anchor(self, pts: Option<i64>, dts: Option<i64>) -> Option<i64> {
        match self.offset {
            Some(o) => Some(o),
            None => match dts {
                Some(d) => Some(d),
                None => pts,
            },
        }
    }

    /// How far a packet's PTS lies from the one that is expected.
    pub open spec fn gap(self, pts: i64, offset: i64) -> int {
        pts - offset + self.pts_correction - self.expected_next_pts
    }

    /// Is the gap a discontinuity? In audio a forward gap may be intended
    /// silence, so only a backward jump counts there.
    pub open spec fn jumps(self, pts: i64, offset: i64, is_audio: bool) -> bool {
        self.expected_next_pts != 0 && if is_audio {
            self.gap(pts, offset) < -self.one_sec_threshold
        } else {
            timing::magnitude(self.gap(pts, offset)) > self.one_sec_threshold
        }
    }

    /// The correction in force after a packet.
    pub open spec fn corrected(self, pts: Option<i64>, dts: Option<i64>, is_audio: bool) -> int {
        match (self.anchor(pts, dts), pts) {
            (Some(offset), Some(p)) if self.jumps(p, offset, is_audio) => self.pts_correction
                - self.gap(p, offset),
            _ => self.pts_correction as int,
        }
    }

    /// The timestamps that a packet leaves with.
    pub open spec fn adjusted(self, pts: Option<i64>, dts: Option<i64>, is_audio: bool) -> (
        Option<int>,
        Option<int>,
    ) {
        match self.anchor(pts, dts) {
            Some(offset) => (
                shifted(pts, offset as int, self.corrected(pts, dts, is_audio)),
                shifted(dts, offset as int, self.corrected(pts, dts, is_audio)),
            ),
            None => stamps(pts, dts),
        }
    }

    /// The tracker after a packet. A discontinuity clears the expectation, which
    /// the next packet sets again.
    pub open spec fn after(
        self,
        pts: Option<i64>,
        dts: Option<i64>,
        is_audio: bool,
    ) -> CopyPtsTracker {
        match (self.anchor(pts, dts), pts) {
            (Some(offset), Some(p)) => {
                let out = p - offset + self.corrected(pts, dts, is_audio);
                CopyPtsTracker {
                    offset: Some(offset),
                    expected_next_pts: if self.jumps(p, offset, is_audio) {
                        0
                    } else {
                        out as i64
                    },
                    pts_correction: self.corrected(pts, dts, is_audio) as i64,
                    last_pts: out as i64,
                    one_sec_threshold: self.one_sec_threshold,
                }
            },
            (Some(offset), None) => CopyPtsTracker { offset: Some(offset), ..self },
            (None, _) => self,
        }
    }

    /// No sum or difference on the way to the adjusted timestamps leaves the
    /// range of a timestamp.
    pub open spec fn adjustable(self, pts: Option<i64>, dts: Option<i64>, is_audio: bool) -> bool {
        match (self.anchor(pts, dts), pts) {
            (Some(offset), Some(p)) => {
                &&& shift_fits(pts, offset as int, self.pts_correction as int)
                &&& self.expected_next_pts != 0 ==> {
                    &&& timing::fits(self.gap(p, offset))
                    &&& is_audio || timing::fits(-self.gap(p, offset))
                }
                &&& timing::fits(self.corrected(pts, dts, is_audio))
                &&& shift_fits(pts, offset as int, self.corrected(pts, dts, is_audio))
                &&& shift_fits(dts, offset as int, self.corrected(pts, dts, is_audio))
            },
            (Some(offset), None) => shift_fits(dts, offset as int, self.pts_correction as int),
            (None, _) => true,
        }
    }

    /// Can the packet be adjusted without leaving the range of a timestamp?
    pub fn can_adjust(&self, pts: Option<i64>, dts: Option<i64>, is_audio: bool) -> (r: bool)
        requires
            self.well_formed(),
        ensures
            r == self.adjustable(pts, dts, is_audio),
    {
        let offset: i128 = match self.offset {
            Some(o) => o as i128,
            None => match dts {
                Some(d) => d as i128,
                None => match pts {
                    Some(p) => p as i128,
                    None => return true,
                },
            },
        };
        let correction: i128 = self.pts_correction as i128;
        let mut corrected: i128 = correction;
        if let Some(p) = pts {
            let base: i128 = p as i128 - offset;
            if !timing::in_range(base) || !timing::in_range(base + correction) {
                return false;
            }
            if self.expected_next_pts != 0 {
                let gap: i128 = base + correction - self.expected_next_pts as i128;
                if !timing::in_range(gap) || !(is_audio || timing::in_range(-gap)) {
                    return false;
                }
                let threshold: i128 = self.one_sec_threshold as i128;
                if is_audio && gap < -threshold || !is_audio && (gap > threshold || -gap
                    > threshold) {
                    corrected = correction - gap;
                }
            }
            if !timing::in_range(corrected) || !timing::in_range(base + corrected) {
                return false;
            }
        }
        match dts {
            Some(d) => timing::in_range(d as i128 - offset) && timing::in_range(
                d as i128 - offset + corrected,
            ),
            None => true,
        }
    }

    /// Adjust PTS/DTS for a copy-mode packet. Returns (adjusted_pts, adjusted_dts).
    pub fn adjust(&mut self, pts: Option<i64>, dts: Option<i64>, is_audio: bool) -> (r: (
        Option<i64>,
        Option<i64>,
    ))
        requires
            old(self).well_formed(),
            old(self).adjustable(pts, dts, is_audio),
        ensures
            stamps(r.0, r.1) == old(self).adjusted(pts, dts, is_audio),
            *final(self) == old(self).after(pts, dts, is_audio),
            final(self).well_formed(),
    {
        let offset: i64 = match self.offset {
            Some(o) => o,
            None => match dts {
                Some(d) => d,
                None => match pts {
                    Some(p) => p,
                    None => return (pts, dts),
                },
            },
        };
        self.offset = Some(offset);

        let raw_pts: i64 = match pts {
            Some(p) => p,
            // No PTS on this packet (common in DVD MPEG-PS): still normalize
            // the DTS so it stays consistent with neighboring packets.
            None => return (None, shift(dts, offset, self.pts_correction)),
        };

        let normalized_pts: i64 = raw_pts - offset + self.pts_correction;

        // Detect discontinuity
        if self.expected_next_pts != 0 {
            let diff: i64 = normalized_pts - self.expected_next_pts;
            // For audio: only detect backward jumps (forward gaps may be intentional silence)
            let is_discontinuity: bool = if is_audio {
                diff < -self.one_sec_threshold
            } else if diff < 0 {
                -diff > self.one_sec_threshold
            } else {
                diff > self.one_sec_threshold
            };

            if is_discontinuity {
                self.pts_correction = self.pts_correction - diff;
                let mended_pts: i64 = raw_pts - offset + self.pts_correction;
                self.last_pts = mended_pts;
                self.expected_next_pts = 0;  // reset; will be set from next packet
                return (Some(mended_pts), shift(dts, offset, self.pts_correction));
            }
        }
        self.last_pts = normalized_pts;
        self.expected_next_pts = normalized_pts;  // next packet should be >= this

        (Some(normalized_pts), shift(dts, offset, self.pts_correction))
    }
}

/// One offset and one correction serve both timestamps, so the distance from
/// DTS to PTS is kept, and a PTS at or after its DTS stays there.
pub proof fn adjusting_keeps_the_distance(
    tracker: CopyPtsTracker,
    pts: i64,
    dts: i64,
    is_audio: bool,
)
    ensures
        tracker.adjusted(Some(pts), Some(dts), is_audio).0 matches Some(p)
            && tracker.adjusted(Some(pts), Some(dts), is_audio).1 matches Some(d)
            && p - d == pts - dts,
{
}

/// The first timestamp that a tracker sees becomes 0: the DTS of the first
/// packet that has one, else its PTS.
pub proof fn first_timestamp_becomes_zero(
    time_base: TimeBase,
    pts: Option<i64>,
    dts: Option<i64>,
    is_audio: bool,
)
    ensures
        dts is Some ==> CopyPtsTracker::fresh(time_base).adjusted(pts, dts, is_audio).1 == Some(
            0int,
        ),
        dts is None && pts is Some ==> CopyPtsTracker::fresh(time_base).adjusted(
            pts,
            dts,
            is_audio,
        ).0 == Some(0int),
{
}

/// Where a timestamp is expected, a video packet leaves within a second of it,
/// and a packet that was further away leaves exactly on it.
pub proof fn adjusted_video_stays_near(
    tracker: CopyPtsTracker,
    pts: i64,
    dts: Option<i64>,
    is_audio: bool,
)
    requires
        tracker.offset is Some,
        tracker.expected_next_pts != 0,
        tracker.one_sec_threshold >= 0,
    ensures
        tracker.jumps(pts, tracker.offset->0, is_audio) ==> tracker.adjusted(
            Some(pts),
            dts,
            is_audio,
        ).0 == Some(tracker.expected_next_pts as int),
        !is_audio ==> timing::magnitude(
            tracker.adjusted(Some(pts), dts, is_audio).0->0 - tracker.expected_next_pts,
        ) <= tracker.one_sec_threshold,
        is_audio ==> tracker.adjusted(Some(pts), dts, is_audio).0->0 >= tracker.expected_next_pts
            - tracker.one_sec_threshold,
{
}

/// One output stream to make, in the order in which the muxer gets them.
/// `track` is the place in the list of audio or subtitle configurations.
#[derive(Clone, Copy, Debug, PartialEq, Eq, Structural)]
pub enum OutputStep {
    CopyVideo { source: usize },
    EncodeVideo { source: usize },
    CopyAudio { source: usize, track: usize },
    EncodeAudio { source: usize, track: usize, transcoder_idx: usize },
    CopySubtitle { source: usize, track: usize },
}

impl DeepView for OutputStep {
    type V = OutputStep;

    open spec fn deep_view(&self) -> OutputStep {
        *self
    }
}

impl OutputStep {
    /// The input stream that feeds the output stream.
    pub open spec fn input(self) -> usize {
        match self {
            OutputStep::CopyVideo { source } => source,
            OutputStep::EncodeVideo { source } => source,
            OutputStep::CopyAudio { source, .. } => source,
            OutputStep::EncodeAudio { source, .. } => source,
            OutputStep::CopySubtitle { source, .. } => source,
        }
    }

    /// The input stream that feeds the output stream.
    pub fn source(&self) -> (r: usize)
        ensures
            r == self.input(),
    {
        match self {
            OutputStep::CopyVideo { source } => *source,
            OutputStep::EncodeVideo { source } => *source,
            OutputStep::CopyAudio { source, .. } => *source,
            OutputStep::EncodeAudio { source, .. } => *source,
            OutputStep::CopySubtitle { source, .. } => *source,
        }
    }

    /// What is said where the input has no such stream.
    pub open spec fn missing_text(self) -> Seq<char> {
        let kind = match self {
            OutputStep::CopyVideo { .. } => "Video"@,
            OutputStep::EncodeVideo { .. } => "Video"@,
            OutputStep::CopyAudio { .. } => "Audio"@,
            OutputStep::EncodeAudio { .. } => "Audio"@,
            OutputStep::CopySubtitle { .. } => "Subtitle"@,
        };
        kind + " source stream "@ + text::decimal(self.input() as nat) + " not found"@
    }

    /// What is said where the input has no such stream.
    fn missing_message(&self) -> (r: String)
        ensures
            r@ == self.missing_text(),
    {
        let mut r: String = match self {
            OutputStep::CopyVideo { .. } => "Video".to_owned(),
            OutputStep::EncodeVideo { .. } => "Video".to_owned(),
            OutputStep::CopyAudio { .. } => "Audio".to_owned(),
            OutputStep::EncodeAudio { .. } => "Audio".to_owned(),
            OutputStep::CopySubtitle { .. } => "Subtitle".to_owned(),
        };
        r.append(" source stream ");
        text::push_decimal(&mut r, self.source() as u64);
        r.append(" not found");
        r
    }
}

/// The stream that the configuration asks for, else the one that the demuxer
/// holds for the best.
pub fn video_source(video: &VideoConfig, best: Option<usize>) -> (r: Option<usize>)
    ensures
        r == match video.source_stream {
            Some(idx) => Some(idx),
            None => best,
        },
{
    match video.source_stream {
        Some(idx) => Some(idx),
        None => best,
    }
}

/// The output stream for the video, none where there is no video.
pub open spec fn video_steps(source: Option<usize>, codec: VideoCodec) -> Seq<OutputStep> {
    match source {
        Some(source) => seq![
            if codec == VideoCodec::Copy {
                OutputStep::CopyVideo { source }
            } else {
                OutputStep::EncodeVideo { source }
            },
        ],
        None => Seq::empty(),
    }
}

/// How many of the first `n` audio tracks are encoded.
pub open spec fn encoders_before(audio: Seq<config::AudioConfigModel>, n: int) -> nat
    decreases n,
{
    if n <= 0 {
        0
    } else if audio[n - 1].action is Copy {
        encoders_before(audio, n - 1)
    } else {
        encoders_before(audio, n - 1) + 1
    }
}

/// The output stream for one audio track.
pub open spec fn audio_step(audio: Seq<config::AudioConfigModel>, i: int) -> OutputStep {
    if audio[i].action is Copy {
        OutputStep::CopyAudio { source: audio[i].source_stream, track: i as usize }
    } else {
        OutputStep::EncodeAudio {
            source: audio[i].source_stream,
            track: i as usize,
            transcoder_idx: encoders_before(audio, i) as usize,
        }
    }
}

/// The output streams for the audio tracks.
pub open spec fn audio_steps(audio: Seq<config::AudioConfigModel>) -> Seq<OutputStep> {
    Seq::new(audio.len(), |i: int| audio_step(audio, i))
}

/// The output stream for one subtitle track.
pub open spec fn subtitle_step(
    subtitles: Seq<config::SubtitleConfigModel>,
    i: int,
) -> OutputStep {
    OutputStep::CopySubtitle { source: subtitles[i].source_stream, track: i as usize }
}

/// The output streams for the subtitle tracks.
pub open spec fn subtitle_steps(subtitles: Seq<config::SubtitleConfigModel>) -> Seq<OutputStep> {
    Seq::new(subtitles.len(), |i: int| subtitle_step(subtitles, i))
}

/// All output streams that are asked for: the video, then the audio tracks,
/// then the subtitle tracks.
pub open spec fn wanted(
    source: Option<usize>,
    codec: VideoCodec,
    audio: Seq<config::AudioConfigModel>,
    subtitles: Seq<config::SubtitleConfigModel>,
) -> Seq<OutputStep> {
    video_steps(source, codec) + audio_steps(audio) + subtitle_steps(subtitles)
}

/// How many steps can be taken before one asks for a stream that the input
/// does not have.
pub open spec fn reachable(steps: Seq<OutputStep>, streams: int) -> int
    decreases steps.len(),
{
    if steps.len() == 0 {
        0
    } else if steps[0].input() >= streams {
        0
    } else {
        1 + reachable(steps.skip(1), streams)
    }
}

/// The output streams that can be made, and why the rest cannot.
#[derive(Debug)]
pub struct StreamPlan {
    pub steps: Vec<OutputStep>,
    pub failure: Option<TranscodeError>,
}

/// What a `StreamPlan` says.
pub ghost struct StreamPlanModel {
    pub steps: Seq<OutputStep>,
    pub failure: Option<error::TranscodeErrorModel>,
}

impl DeepView for StreamPlan {
    type V = StreamPlanModel;

    open spec fn deep_view(&self) -> StreamPlanModel {
        StreamPlanModel { steps: self.steps@, failure: self.failure.deep_view() }
    }
}

impl StreamPlanModel {
    /// The steps up to the first that asks for a missing stream, and the
    /// complaint about that one.
    pub open spec fn of(steps: Seq<OutputStep>, streams: int) -> StreamPlanModel {
        let n = reachable(steps, streams);
        StreamPlanModel {
            steps: steps.take(n),
            failure: if n < steps.len() {
                Some(error::TranscodeErrorModel::InvalidConfig(steps[n].missing_text()))
            } else {
                None
            },
        }
    }
}

proof fn lemma_reachable(steps: Seq<OutputStep>, streams: int, n: int)
    requires
        0 <= n <= steps.len(),
        forall|i: int| 0 <= i < n ==> (#[trigger] steps[i]).input() < streams,
        n < steps.len() ==> steps[n].input() >= streams,
    ensures
        reachable(steps, streams) == n,
    decreases steps.len(),
{
    if n > 0 {
        let rest = steps.skip(1);
        assert forall|i: int| 0 <= i < n - 1 implies (#[trigger] rest[i]).input() < streams by {
            assert(rest[i] == steps[i + 1]);
        }
        lemma_reachable(rest, streams, n - 1);
    }
}

/// All steps before the limit name a stream that the input has.
pub proof fn reachable_steps_have_inputs(steps: Seq<OutputStep>, streams: int)
    ensures
        0 <= reachable(steps, streams) <= steps.len(),
        forall|i: int|
            0 <= i < reachable(steps, streams) ==> (#[trigger] steps[i]).input() < streams,
        reachable(steps, streams) < steps.len() ==> steps[reachable(steps, streams)].input()
            >= streams,
    decreases steps.len(),
{
    if steps.len() > 0 && steps[0].input() < streams {
        let rest = steps.skip(1);
        reachable_steps_have_inputs(rest, streams);
        assert forall|i: int| 0 <= i < reachable(steps, streams) implies (
        #[trigger] steps[i]).input() < streams by {
            if i > 0 {
                assert(rest[i - 1] == steps[i]);
            }
        }
        if reachable(steps, streams) < steps.len() {
            assert(rest[reachable(rest, streams)] == steps[reachable(steps, streams)]);
        }
    }
}

/// All output streams that are asked for.
pub fn wanted_steps(
    source: Option<usize>,
    codec: VideoCodec,
    audio: &Vec<AudioConfig>,
    subtitles: &Vec<SubtitleConfig>,
) -> (r: Vec<OutputStep>)
    ensures
        r@ == wanted(source, codec, audio.deep_view(), subtitles.deep_view()),
{
    let mut steps: Vec<OutputStep> = Vec::new();
    if let Some(vsrc) = source {
        if codec == VideoCodec::Copy {
            steps.push(OutputStep::CopyVideo { source: vsrc });
        } else {
            steps.push(OutputStep::EncodeVideo { source: vsrc });
        }
    }
    let ghost head = steps@;
    assert(head =~= video_steps(source, codec));

    let ghost tracks = audio.deep_view();
    let mut encoders: usize = 0;
    let mut i: usize = 0;
    while i < audio.len()
        invariant
            i <= audio.len(),
            tracks == audio.deep_view(),
            encoders == encoders_before(tracks, i as int),
            encoders <= i,
            steps@ == head + audio_steps(tracks).take(i as int),
        decreases audio.len() - i,
    {
        assert(tracks[i as int] == audio[i as int].deep_view());
        let src: usize = audio[i].source_stream;
        match &audio[i].action {
            AudioAction::Copy => {
                steps.push(OutputStep::CopyAudio { source: src, track: i });
            },
            AudioAction::Encode { .. } => {
                steps.push(
                    OutputStep::EncodeAudio { source: src, track: i, transcoder_idx: encoders },
                );
                encoders = encoders + 1;
            },
        }
        assert(audio_steps(tracks)[i as int] == audio_step(tracks, i as int));
        assert(steps@ =~= head + audio_steps(tracks).take(i + 1));
        i = i + 1;
    }
    assert(audio_steps(tracks).take(i as int) =~= audio_steps(tracks));

    let ghost upper = steps@;
    let ghost subs = subtitles.deep_view();
    let mut j: usize = 0;
    while j < subtitles.len()
        invariant
            j <= subtitles.len(),
            subs == subtitles.deep_view(),
            steps@ == upper + subtitle_steps(subs).take(j as int),
        decreases subtitles.len() - j,
    {
        assert(subs[j as int] == subtitles[j as int].deep_view());
        steps.push(OutputStep::CopySubtitle { source: subtitles[j].source_stream, track: j });
        assert(subtitle_steps(subs)[j as int] == subtitle_step(subs, j as int));
        assert(steps@ =~= upper + subtitle_steps(subs).take(j + 1));
        j = j + 1;
    }
    assert(subtitle_steps(subs).take(j as int) =~= subtitle_steps(subs));
    steps
}

/// Plans the output file for an input with `streams` streams.
pub fn plan_streams(
    streams: usize,
    source: Option<usize>,
    codec: VideoCodec,
    audio: &Vec<AudioConfig>,
    subtitles: &Vec<SubtitleConfig>,
) -> (r: StreamPlan)
    ensures
        r.deep_view() == StreamPlanModel::of(
            wanted(source, codec, audio.deep_view(), subtitles.deep_view()),
            streams as int,
        ),
{
    let all = wanted_steps(source, codec, audio, subtitles);
    let mut steps: Vec<OutputStep> = Vec::new();
    let mut i: usize = 0;
    while i < all.len()
        invariant
            i <= all.len(),
            steps@ == all@.take(i as int),
            forall|k: int| 0 <= k < i ==> (#[trigger] all@[k]).input() < streams,
            all@ == wanted(source, codec, audio.deep_view(), subtitles.deep_view()),
        decreases all.len() - i,
    {
        if all[i].source() >= streams {
            proof {
                lemma_reachable(all@, streams as int, i as int);
            }
            let failure = TranscodeError::InvalidConfig(all[i].missing_message());
            return StreamPlan { steps, failure: Some(failure) };
        }
        steps.push(all[i]);
        assert(steps@ =~= all@.take(i + 1));
        i = i + 1;
    }
    proof {
        lemma_reachable(all@, streams as int, i as int);
    }
    StreamPlan { steps, failure: None }
}

/// The encoders of a plan are numbered from 0 in the order of their tracks, with
/// no number left out or used twice.
pub proof fn encoders_are_numbered(audio: Seq<config::AudioConfigModel>, i: int, j: int)
    requires
        0 <= i < j <= audio.len(),
    ensures
        encoders_before(audio, 0) == 0,
        encoders_before(audio, j) <= j,
        !(audio[i].action is Copy) ==> encoders_before(audio, i) < encoders_before(audio, j),
        encoders_before(audio, i) <= encoders_before(audio, j),
        encoders_before(audio, i + 1) <= encoders_before(audio, i) + 1,
    decreases j,
{
    if i < j - 1 {
        encoders_are_numbered(audio, i, j - 1);
    }
    lemma_encoders_bounded(audio, j);
}

proof fn lemma_encoders_bounded(audio: Seq<config::AudioConfigModel>, n: int)
    requires
        0 <= n,
    ensures
        encoders_before(audio, n) <= n,
    decreases n,
{
    if n > 0 {
        lemma_encoders_bounded(audio, n - 1);
    }
}

/// What to do with each input stream packet in the main loop
#[derive(Clone, Copy, Debug, PartialEq, Eq, Structural)]
pub enum StreamAction {
    CopyVideo { out_idx: usize },
    CopyAudio { out_idx: usize },
    CopySubtitle { out_idx: usize },
    EncodeVideo,
    EncodeAudio { transcoder_idx: usize },
    Drop,
}

impl StreamAction {
    /// Does the stream pass without being decoded?
    pub open spec fn copies(self) -> bool {
        self is CopyVideo || self is CopyAudio || self is CopySubtitle
    }
}

/// The action for the input stream of a step, whose output stream got the
/// number `out_idx` from the muxer.
pub open spec fn action_of(step: OutputStep, out_idx: usize) -> StreamAction {
    match step {
        OutputStep::CopyVideo { .. } => StreamAction::CopyVideo { out_idx },
        OutputStep::EncodeVideo { .. } => StreamAction::EncodeVideo,
        OutputStep::CopyAudio { .. } => StreamAction::CopyAudio { out_idx },
        OutputStep::EncodeAudio { transcoder_idx, .. } => StreamAction::EncodeAudio {
            transcoder_idx,
        },
        OutputStep::CopySubtitle { .. } => StreamAction::CopySubtitle { out_idx },
    }
}

/// The last of the first `n` steps that takes a given input stream, -1 for none.
pub open spec fn last_step(steps: Seq<OutputStep>, n: int, source: int) -> int
    decreases n,
{
    if n <= 0 {
        -1
    } else if steps[n - 1].input() == source {
        n - 1
    } else {
        last_step(steps, n - 1, source)
    }
}

/// The action for an input stream after `n` steps.
pub open spec fn stream_action(
    steps: Seq<OutputStep>,
    out_indices: Seq<usize>,
    n: int,
    source: int,
) -> StreamAction {
    let k = last_step(steps, n, source);
    if 0 <= k {
        action_of(steps[k], out_indices[k])
    } else {
        StreamAction::Drop
    }
}

/// The action for every input stream: that of the last step that takes it, and
/// nothing at all where none does.
pub fn action_table(streams: usize, steps: &Vec<OutputStep>, out_indices: &Vec<usize>) -> (r: Vec<
    StreamAction,
>)
    requires
        out_indices.len() == steps.len(),
        forall|i: int| 0 <= i < steps.len() ==> (#[trigger] steps[i]).input() < streams,
    ensures
        r.len() == streams,
        forall|s: int|
            0 <= s < streams ==> #[trigger] r[s] == stream_action(
                steps@,
                out_indices@,
                steps.len() as int,
                s,
            ),
{
    let mut actions: Vec<StreamAction> = Vec::new();
    let mut s: usize = 0;
    while s < streams
        invariant
            s <= streams,
            actions.len() == s,
            forall|k: int| 0 <= k < s ==> #[trigger] actions[k] == StreamAction::Drop,
        decreases streams - s,
    {
        actions.push(StreamAction::Drop);
        s = s + 1;
    }
    let mut i: usize = 0;
    while i < steps.len()
        invariant
            i <= steps.len(),
            out_indices.len() == steps.len(),
            actions.len() == streams,
            forall|k: int| 0 <= k < steps.len() ==> (#[trigger] steps[k]).input() < streams,
            forall|k: int|
                0 <= k < streams ==> #[trigger] actions[k] == stream_action(
                    steps@,
                    out_indices@,
                    i as int,
                    k,
                ),
        decreases steps.len() - i,
    {
        let out_idx: usize = out_indices[i];
        let action = match steps[i] {
            OutputStep::CopyVideo { .. } => StreamAction::CopyVideo { out_idx },
            OutputStep::EncodeVideo { .. } => StreamAction::EncodeVideo,
            OutputStep::CopyAudio { .. } => StreamAction::CopyAudio { out_idx },
            OutputStep::EncodeAudio { transcoder_idx, .. } => StreamAction::EncodeAudio {
                transcoder_idx,
            },
            OutputStep::CopySubtitle { .. } => StreamAction::CopySubtitle { out_idx },
        };
        let source: usize = steps[i].source();
        actions.set(source, action);
        i = i + 1;
    }
    actions
}

/// Where no two steps take the same input stream, every step's action stands in
/// the table, and every stream that no step takes is dropped.
pub proof fn distinct_inputs_keep_their_actions(
    steps: Seq<OutputStep>,
    out_indices: Seq<usize>,
    i: int,
    source: int,
)
    requires
        0 <= i < steps.len(),
        forall|j: int, k: int|
            0 <= j < k < steps.len() ==> (#[trigger] steps[j]).input() != (
            #[trigger] steps[k]).input(),
    ensures
        stream_action(steps, out_indices, steps.len() as int, steps[i].input() as int)
            == action_of(steps[i], out_indices[i]),
        (forall|j: int| 0 <= j < steps.len() ==> (#[trigger] steps[j]).input() != source)
            ==> stream_action(steps, out_indices, steps.len() as int, source)
            == StreamAction::Drop,
{
    lemma_last_step(steps, steps.len() as int, steps[i].input() as int);
    lemma_last_step(steps, steps.len() as int, source);
}

proof fn lemma_last_step(steps: Seq<OutputStep>, n: int, source: int)
    requires
        0 <= n <= steps.len(),
    ensures
        -1 <= last_step(steps, n, source) < n,
        last_step(steps, n, source) >= 0 ==> steps[last_step(steps, n, source)].input() == source,
        forall|j: int|
            last_step(steps, n, source) < j < n ==> (#[trigger] steps[j]).input() != source,
    decreases n,
{
    if n > 0 {
        lemma_last_step(steps, n - 1, source);
    }
}

/// What the main loop does with a packet. `Write` carries the timestamps in the
/// time base of the input stream; `Rescale` leaves the packet's own.
#[derive(Clone, Copy, Debug, PartialEq, Eq, Structural)]
pub enum PacketRoute {
    Write { out_idx: usize, pts: Option<i64>, dts: Option<i64> },
    Rescale { out_idx: usize },
    FeedVideo,
    FeedAudio { transcoder_idx: usize },
    Drop,
}

impl PacketRoute {
    /// That a packet goes where the action of its stream sends it.
    pub open spec fn follows(self, action: StreamAction) -> bool {
        match self {
            PacketRoute::Write { out_idx, .. } => action == (StreamAction::CopyVideo { out_idx })
                || action == (StreamAction::CopyAudio { out_idx }),
            PacketRoute::Rescale { out_idx } => action == (StreamAction::CopySubtitle { out_idx }),
            PacketRoute::FeedVideo => action == StreamAction::EncodeVideo,
            PacketRoute::FeedAudio { transcoder_idx } => action == (StreamAction::EncodeAudio {
                transcoder_idx,
            }),
            PacketRoute::Drop => action == StreamAction::Drop,
        }
    }
}

/// The actions of the input streams and the state of their timestamps.
#[derive(Debug)]
pub struct PacketRouter {
    pub actions: Vec<StreamAction>,
    pub trackers: Vec<Option<CopyPtsTracker>>,
}

impl PacketRouter {
    /// Every copied stream has a tracker, and no other stream has one.
    pub open spec fn well_formed(self) -> bool {
        &&& self.trackers.len() == self.actions.len()
        &&& forall|i: int|
            0 <= i < self.actions.len() ==> {
                &&& (#[trigger] self.trackers[i] is Some) == self.actions[i].copies()
                &&& self.trackers[i] matches Some(t) ==> t.well_formed()
            }
    }

    /// Every copied stream starts with a fresh tracker in its own time base.
    pub fn new(actions: Vec<StreamAction>, time_bases: &Vec<TimeBase>) -> (r: Self)
        requires
            time_bases.len() == actions.len(),
        ensures
            r.well_formed(),
            r.actions@ == actions@,
            forall|i: int|
                0 <= i < actions.len() ==> #[trigger] r.trackers[i] == if actions[i].copies() {
                    Some(CopyPtsTracker::fresh(time_bases[i]))
                } else {
                    None
                },
    {
        let mut trackers: Vec<Option<CopyPtsTracker>> = Vec::new();
        let mut i: usize = 0;
        while i < actions.len()
            invariant
                i <= actions.len(),
                time_bases.len() == actions.len(),
                trackers.len() == i,
                forall|k: int|
                    0 <= k < i ==> {
                        &&& #[trigger] trackers[k] == if actions[k].copies() {
                            Some(CopyPtsTracker::fresh(time_bases[k]))
                        } else {
                            None
                        }
                        &&& trackers[k] matches Some(t) ==> t.well_formed()
                    },
            decreases actions.len() - i,
        {
            let tracker: Option<CopyPtsTracker> = match actions[i] {
                StreamAction::CopyVideo { .. }
                | StreamAction::CopyAudio { .. }
                | StreamAction::CopySubtitle { .. } => Some(CopyPtsTracker::new(time_bases[i])),
                _ => None,
            };
            trackers.push(tracker);
            i = i + 1;
        }
        PacketRouter { actions, trackers }
    }

    /// Can a packet be routed without leaving the range of a timestamp?
    pub open spec fn routable(self, idx: int, pts: Option<i64>, dts: Option<i64>) -> bool {
        &&& 0 <= idx < self.actions.len()
        &&& match self.actions[idx] {
            StreamAction::CopyVideo { .. } => self.trackers[idx]->0.adjustable(pts, dts, false),
            StreamAction::CopyAudio { .. } => self.trackers[idx]->0.adjustable(pts, dts, true),
            _ => true,
        }
    }

    /// Can a packet be routed without leaving the range of a timestamp?
    pub fn can_route(&self, idx: usize, pts: Option<i64>, dts: Option<i64>) -> (r: bool)
        requires
            self.well_formed(),
        ensures
            r == self.routable(idx as int, pts, dts),
    {
        if idx >= self.actions.len() {
            return false;
        }
        let is_audio: bool = match self.actions[idx] {
            StreamAction::CopyVideo { .. } => false,
            StreamAction::CopyAudio { .. } => true,
            _ => return true,
        };
        assert(self.trackers[idx as int] is Some);
        match self.trackers[idx] {
            Some(tracker) => tracker.can_adjust(pts, dts, is_audio),
            None => true,
        }
    }

    /// Decides about one packet. Copied video and audio goes through the tracker
    /// of its stream; no other tracker moves.
    pub fn route(&mut self, idx: usize, pts: Option<i64>, dts: Option<i64>) -> (r: PacketRoute)
        requires
            old(self).well_formed(),
            old(self).routable(idx as int, pts, dts),
        ensures
            final(self).well_formed(),
            final(self).actions@ == old(self).actions@,
            r.follows(old(self).actions[idx as int]),
            match old(self).actions[idx as int] {
                StreamAction::CopyVideo { out_idx } => {
                    let tracker = old(self).trackers[idx as int]->0;
                    &&& r matches PacketRoute::Write { out_idx: o, pts: p, dts: d }
                    &&& o == out_idx
                    &&& stamps(p, d) == tracker.adjusted(pts, dts, false)
                    &&& final(self).trackers@ == old(self).trackers@.update(
                        idx as int,
                        Some(tracker.after(pts, dts, false)),
                    )
                },
                StreamAction::CopyAudio { out_idx } => {
                    let tracker = old(self).trackers[idx as int]->0;
                    &&& r matches PacketRoute::Write { out_idx: o, pts: p, dts: d }
                    &&& o == out_idx
                    &&& stamps(p, d) == tracker.adjusted(pts, dts, true)
                    &&& final(self).trackers@ == old(self).trackers@.update(
                        idx as int,
                        Some(tracker.after(pts, dts, true)),
                    )
                },
                StreamAction::CopySubtitle { out_idx } => {
                    &&& r == PacketRoute::Rescale { out_idx }
                    &&& final(self).trackers@ == old(self).trackers@
                },
                StreamAction::EncodeVideo => {
                    &&& r == PacketRoute::FeedVideo
                    &&& final(self).trackers@ == old(self).trackers@
                },
                StreamAction::EncodeAudio { transcoder_idx } => {
                    &&& r == PacketRoute::FeedAudio { transcoder_idx }
                    &&& final(self).trackers@ == old(self).trackers@
                },
                StreamAction::Drop => {
                    &&& r == PacketRoute::Drop
                    &&& final(self).trackers@ == old(self).trackers@
                },
            },
    {
        assert(self.trackers[idx as int] is Some == self.actions[idx as int].copies());
        match self.actions[idx] {
            StreamAction::CopyVideo { out_idx } => self.write(idx, out_idx, pts, dts, false),
            StreamAction::CopyAudio { out_idx } => self.write(idx, out_idx, pts, dts, true),
            StreamAction::CopySubtitle { out_idx } => PacketRoute::Rescale { out_idx },
            StreamAction::EncodeVideo => PacketRoute::FeedVideo,
            StreamAction::EncodeAudio { transcoder_idx } => PacketRoute::FeedAudio {
                transcoder_idx,
            },
            StreamAction::Drop => PacketRoute::Drop,
        }
    }

    fn write(
        &mut self,
        idx: usize,
        out_idx: usize,
        pts: Option<i64>,
        dts: Option<i64>,
        is_audio: bool,
    ) -> (r: PacketRoute)
        requires
            old(self).well_formed(),
            idx < old(self).actions.len(),
            old(self).trackers[idx as int] is Some,
            old(self).trackers[idx as int]->0.adjustable(pts, dts, is_audio),
        ensures
            final(self).well_formed(),
            final(self).actions@ == old(self).actions@,
            final(self).trackers@ == old(self).trackers@.update(
                idx as int,
                Some(old(self).trackers[idx as int]->0.after(pts, dts, is_audio)),
            ),
            r matches PacketRoute::Write { out_idx: o, pts: p, dts: d } && o == out_idx && stamps(
                p,
                d,
            ) == old(self).trackers[idx as int]->0.adjusted(pts, dts, is_audio),
    {
        match self.trackers[idx] {
            Some(current) => {
                let mut tracker = current;
                let (p, d) = tracker.adjust(pts, dts, is_audio);
                self.trackers.set(idx, Some(tracker));
                PacketRoute::Write { out_idx, pts: p, dts: d }
            },
            None => PacketRoute::Drop,
        }
    }
}

/// The codecs that an MP4 file has a tag of its own for.
#[derive(Clone, Copy, Debug, PartialEq, Eq, Structural)]
pub enum Mp4Codec {
    H264,
    Hevc,
    Ac3,
    Eac3,
    Aac,
    Other,
}

/// A tag that spells four characters, the first in the lowest byte.
pub open spec fn four_characters(a: char, b: char, c: char, d: char) -> int {
    a as int + 0x100 * b as int + 0x1_0000 * c as int + 0x100_0000 * d as int
}

/// The tag of a codec in an MP4 file.
pub open spec fn tag_of(codec_id: Mp4Codec) -> Option<int> {
    match codec_id {
        Mp4Codec::H264 => Some(four_characters('a', 'v', 'c', '1')),
        Mp4Codec::Hevc => Some(four_characters('h', 'v', 'c', '1')),
        Mp4Codec::Ac3 => Some(four_characters('a', 'c', '-', '3')),
        Mp4Codec::Eac3 => Some(four_characters('e', 'c', '-', '3')),
        Mp4Codec::Aac => Some(four_characters('m', 'p', '4', 'a')),
        Mp4Codec::Other => None,
    }
}

/// Return the MP4-specific codec tag for common codecs.
/// These ensure proper identification in MP4/M4V containers.
pub fn mp4_codec_tag(codec_id: Mp4Codec) -> (r: Option<u32>)
    ensures
        match r {
            Some(tag) => tag_of(codec_id) == Some(tag as int),
            None => tag_of(codec_id) is None,
        },
{
    match codec_id {
        Mp4Codec::H264 => Some(0x31637661),  // 'avc1'
        Mp4Codec::Hevc => Some(0x31637668),  // 'hvc1'
        Mp4Codec::Ac3 => Some(0x332D6361),  // 'ac-3'
        Mp4Codec::Eac3 => Some(0x332D6365),  // 'ec-3'
        Mp4Codec::Aac => Some(0x6134706D),  // 'mp4a'
        Mp4Codec::Other => None,
    }
}

/// The metadata entries for the language and the name of a stream.
pub open spec fn metadata_entries(language: Option<Seq<char>>, name: Option<Seq<char>>) -> Seq<
    (Seq<char>, Seq<char>),
> {
    let first = match language {
        Some(lang) => seq![("language"@, lang)],
        None => Seq::empty(),
    };
    let second = match name {
        Some(title) => seq![("title"@, title)],
        None => Seq::empty(),
    };
    first + second
}

/// Build the stream metadata from optional language and name fields.
pub fn stream_metadata(language: &Option<String>, name: &Option<String>) -> (r: Vec<
    (String, String),
>)
    ensures
        r.deep_view() == metadata_entries(language.deep_view(), name.deep_view()),
{
    let mut entries: Vec<(String, String)> = list::empty();
    if let Some(lang) = language {
        list::push(&mut entries, ("language".to_owned(), lang.clone()));
    }
    if let Some(title) = name {
        list::push(&mut entries, ("title".to_owned(), title.clone()));
    }
    assert(entries.deep_view() =~= metadata_entries(language.deep_view(), name.deep_view()));
    entries
}

/// The aspect ratio of a copied video stream, as numerator and denominator: that
/// of the input stream where it has one, else that of its codec parameters.
pub fn copied_aspect_ratio(stream: (i32, i32), parameters: (i32, i32)) -> (r: (i32, i32))
    ensures
        r == if stream.0 > 0 {
            stream
        } else {
            parameters
        },
{
    if stream.0 > 0 {
        stream
    } else {
        parameters
    }
}

/// What a run does to the output file, in order.
#[derive(Clone, Copy, Debug, PartialEq, Eq, Structural)]
pub enum RunStage {
    MakeStream { step: OutputStep },
    /// The plan's failure ends the run.
    Fail,
    /// MP4 files only: every output stream gets the tag of its codec.
    SetCodecTags,
    AddChapter { index: usize },
    SetMetadata,
    WriteHeader,
    PumpPackets,
    FlushVideo,
    FlushAudio { transcoder_idx: usize },
    WriteTrailer,
}

/// Making one output stream after another.
pub open spec fn making(steps: Seq<OutputStep>) -> Seq<RunStage> {
    Seq::new(steps.len(), |i: int| RunStage::MakeStream { step: steps[i] })
}

/// What comes between the last output stream and the header.
pub open spec fn heading(container: ContainerFormat, chapters: int, has_metadata: bool) -> Seq<
    RunStage,
> {
    let tags = if container is Mp4 {
        seq![RunStage::SetCodecTags]
    } else {
        Seq::empty()
    };
    let marks = Seq::new(chapters as nat, |i: int| RunStage::AddChapter { index: i as usize });
    let entries = if has_metadata {
        seq![RunStage::SetMetadata]
    } else {
        Seq::empty()
    };
    tags + marks + entries
}

/// What is flushed after the last packet: the encoders that the steps opened,
/// the video's first.
pub open spec fn flushing(steps: Seq<OutputStep>) -> Seq<RunStage>
    decreases steps.len(),
{
    if steps.len() == 0 {
        Seq::empty()
    } else {
        let earlier = flushing(steps.drop_last());
        match steps.last() {
            OutputStep::EncodeVideo { .. } => earlier.push(RunStage::FlushVideo),
            OutputStep::EncodeAudio { transcoder_idx, .. } => earlier.push(
                RunStage::FlushAudio { transcoder_idx },
            ),
            _ => earlier,
        }
    }
}

/// A whole run: the output streams, then, unless one of them fails, what goes
/// before the header, the header, the packets, what the encoders still hold,
/// and the trailer.
pub open spec fn run_stages(
    plan: StreamPlanModel,
    container: ContainerFormat,
    chapters: int,
    has_metadata: bool,
) -> Seq<RunStage> {
    if plan.failure is Some {
        making(plan.steps).push(RunStage::Fail)
    } else {
        making(plan.steps) + heading(container, chapters, has_metadata) + seq![
            RunStage::WriteHeader,
            RunStage::PumpPackets,
        ] + flushing(plan.steps) + seq![RunStage::WriteTrailer]
    }
}

/// Lays out a whole run.
pub fn lay_out_run(
    plan: &StreamPlan,
    container: ContainerFormat,
    chapters: usize,
    has_metadata: bool,
) -> (r: Vec<RunStage>)
    ensures
        r@ == run_stages(plan.deep_view(), container, chapters as int, has_metadata),
{
    let mut stages: Vec<RunStage> = Vec::new();
    let ghost steps = plan.steps@;
    let mut i: usize = 0;
    while i < plan.steps.len()
        invariant
            i <= plan.steps.len(),
            steps == plan.steps@,
            stages@ == making(steps).take(i as int),
        decreases plan.steps.len() - i,
    {
        stages.push(RunStage::MakeStream { step: plan.steps[i] });
        assert(stages@ =~= making(steps).take(i + 1));
        i = i + 1;
    }
    assert(stages@ =~= making(steps));
    if plan.failure.is_some() {
        stages.push(RunStage::Fail);
        return stages;
    }
    let ghost made = stages@;
    if matches!(container, ContainerFormat::Mp4) {
        stages.push(RunStage::SetCodecTags);
    }
    let ghost tagged = stages@;
    let ghost marks = Seq::new(
        chapters as nat,
        |k: int| RunStage::AddChapter { index: k as usize },
    );
    let mut c: usize = 0;
    while c < chapters
        invariant
            c <= chapters,
            marks == Seq::new(
                chapters as nat,
                |k: int| RunStage::AddChapter { index: k as usize },
            ),
            stages@ == tagged + marks.take(c as int),
        decreases chapters - c,
    {
        stages.push(RunStage::AddChapter { index: c });
        assert(stages@ =~= tagged + marks.take(c + 1));
        c = c + 1;
    }
    if has_metadata {
        stages.push(RunStage::SetMetadata);
    }
    assert(stages@ =~= made + heading(container, chapters as int, has_metadata));
    stages.push(RunStage::WriteHeader);
    stages.push(RunStage::PumpPackets);
    let ghost pumped = stages@;
    assert(pumped =~= made + heading(container, chapters as int, has_metadata) + seq![
        RunStage::WriteHeader,
        RunStage::PumpPackets,
    ]);
    let mut j: usize = 0;
    assert(steps.take(0).len() == 0);
    assert(stages@ =~= pumped + flushing(steps.take(0)));
    while j < plan.steps.len()
        invariant
            j <= plan.steps.len(),
            steps == plan.steps@,
            stages@ == pumped + flushing(steps.take(j as int)),
        decreases plan.steps.len() - j,
    {
        let ghost next = steps.take(j + 1);
        assert(next.drop_last() =~= steps.take(j as int));
        assert(next.last() == steps[j as int]);
        match plan.steps[j] {
            OutputStep::EncodeVideo { .. } => {
                stages.push(RunStage::FlushVideo);
            },
            OutputStep::EncodeAudio { transcoder_idx, .. } => {
                stages.push(RunStage::FlushAudio { transcoder_idx });
            },
            _ => {},
        }
        assert(stages@ =~= pumped + flushing(next));
        j = j + 1;
    }
    assert(steps.take(j as int) =~= steps);
    stages.push(RunStage::WriteTrailer);
    assert(stages@ =~= pumped + flushing(steps) + seq![RunStage::WriteTrailer]);
    stages
}

/// A run whose plan fails writes no header, moves no packet and writes no
/// trailer; any other run ends with the trailer.
pub proof fn failed_runs_write_nothing(
    plan: StreamPlanModel,
    container: ContainerFormat,
    chapters: int,
    has_metadata: bool,
)
    ensures
        plan.failure is Some ==> {
            &&& run_stages(plan, container, chapters, has_metadata).last() == RunStage::Fail
            &&& forall|i: int|
                0 <= i < plan.steps.len() ==> (#[trigger] run_stages(
                    plan,
                    container,
                    chapters,
                    has_metadata,
                )[i]) is MakeStream
            &&& run_stages(plan, container, chapters, has_metadata).len() == plan.steps.len() + 1
        },
        plan.failure is None ==> run_stages(plan, container, chapters, has_metadata).last()
            == RunStage::WriteTrailer,
{
}

// --- what a plan means for the streams ---

/// Where no later step takes its input stream, above all where no two steps take the
/// same one, a step decides about its input: what is copied goes to the output stream
/// that the muxer gave the step, and what is encoded is fed to the encoder of its
/// medium; none of them is dropped.
pub proof fn every_planned_stream_arrives(
    steps: Seq<OutputStep>,
    out_indices: Seq<usize>,
    i: int,
)
    requires
        0 <= i < steps.len(),
        out_indices.len() == steps.len(),
        forall|k: int|
            i < k < steps.len() ==> (#[trigger] steps[k]).input() != steps[i].input(),
    ensures
        ({
            let n = steps.len() as int;
            match steps[i] {
                OutputStep::CopyVideo { source } => stream_action(
                    steps,
                    out_indices,
                    n,
                    source as int,
                ) == (StreamAction::CopyVideo { out_idx: out_indices[i] }),
                OutputStep::EncodeVideo { source } => stream_action(
                    steps,
                    out_indices,
                    n,
                    source as int,
                ) == StreamAction::EncodeVideo,
                OutputStep::CopyAudio { source, .. } => stream_action(
                    steps,
                    out_indices,
                    n,
                    source as int,
                ) == (StreamAction::CopyAudio { out_idx: out_indices[i] }),
                OutputStep::EncodeAudio { source, transcoder_idx, .. } => stream_action(
                    steps,
                    out_indices,
                    n,
                    source as int,
                ) == (StreamAction::EncodeAudio { transcoder_idx }),
                OutputStep::CopySubtitle { source, .. } => stream_action(
                    steps,
                    out_indices,
                    n,
                    source as int,
                ) == (StreamAction::CopySubtitle { out_idx: out_indices[i] }),
            }
        }),
{
    lemma_last_step(steps, steps.len() as int, steps[i].input() as int);
}

/// A stream is dropped only where no step takes it.
pub proof fn only_unplanned_streams_are_dropped(
    steps: Seq<OutputStep>,
    out_indices: Seq<usize>,
    i: int,
)
    requires
        0 <= i < steps.len(),
    ensures
        stream_action(steps, out_indices, steps.len() as int, steps[i].input() as int)
            != StreamAction::Drop,
{
    lemma_last_step(steps, steps.len() as int, steps[i].input() as int);
}

/// Every audio and subtitle configuration gets one output stream from its own
/// source, in order: audio behind the video, subtitles behind the audio; and the
/// video, where there is any, comes first. What the configuration says decides
/// between copying and encoding.
pub proof fn every_configuration_gets_a_stream(
    source: Option<usize>,
    codec: VideoCodec,
    audio: Seq<config::AudioConfigModel>,
    subtitles: Seq<config::SubtitleConfigModel>,
    a: int,
    s: int,
)
    requires
        audio.len() <= usize::MAX,
        subtitles.len() <= usize::MAX,
    ensures
        ({
            let steps = wanted(source, codec, audio, subtitles);
            let v: int = if source is Some {
                1
            } else {
                0
            };
            &&& steps.len() == v + audio.len() + subtitles.len()
            &&& source matches Some(src) ==> if codec is Copy {
                steps[0] == (OutputStep::CopyVideo { source: src })
            } else {
                steps[0] == (OutputStep::EncodeVideo { source: src })
            }
            &&& 0 <= a < audio.len() ==> match steps[v + a] {
                OutputStep::CopyAudio { source, track } => audio[a].action is Copy && source
                    == audio[a].source_stream && track == a,
                OutputStep::EncodeAudio { source, track, .. } => audio[a].action is Encode
                    && source == audio[a].source_stream && track == a,
                _ => false,
            }
            &&& 0 <= s < subtitles.len() ==> (steps[v + audio.len() + s]
                matches OutputStep::CopySubtitle { source, track } && source
                == subtitles[s].source_stream && track == s)
        }),
{
}

/// Of two encoded audio tracks the later has the larger encoder number, and the
/// encoder numbers of all are below the number of encoded tracks.
pub proof fn encoders_follow_their_tracks(audio: Seq<config::AudioConfigModel>, a: int, b: int)
    requires
        0 <= a < b < audio.len() <= usize::MAX,
        audio[a].action is Encode,
        audio[b].action is Encode,
    ensures
        audio_step(audio, a) matches OutputStep::EncodeAudio { transcoder_idx: x, .. }
            && audio_step(audio, b) matches OutputStep::EncodeAudio { transcoder_idx: y, .. } && x
            < y,
        (forall|k: int| a < k < b ==> audio[k].action is Copy) ==> encoders_before(audio, b)
            == encoders_before(audio, a) + 1,
{
    encoders_are_numbered(audio, a, b);
    lemma_encoders_bounded(audio, a);
    lemma_encoders_bounded(audio, b);
    lemma_copies_do_not_count(audio, a, b);
}

proof fn lemma_copies_do_not_count(audio: Seq<config::AudioConfigModel>, a: int, b: int)
    requires
        0 <= a < b <= audio.len(),
        audio[a].action is Encode,
    ensures
        (forall|k: int| a < k < b ==> audio[k].action is Copy) ==> encoders_before(audio, b)
            == encoders_before(audio, a) + 1,
    decreases b,
{
    if a + 1 < b {
        lemma_copies_do_not_count(audio, a, b - 1);
    }
}

/// A plan fails exactly where a step asks for a stream that the input does not
/// have, all steps before it are taken, and the complaint names its stream.
pub proof fn plans_fail_at_the_first_missing_stream(steps: Seq<OutputStep>, streams: int, i: int)
    requires
        0 <= i < steps.len(),
        steps[i].input() >= streams,
        forall|k: int| 0 <= k < i ==> (#[trigger] steps[k]).input() < streams,
    ensures
        StreamPlanModel::of(steps, streams).steps == steps.take(i),
        StreamPlanModel::of(steps, streams).failure matches Some(
            error::TranscodeErrorModel::InvalidConfig(text),
        ) && text == steps[i].missing_text(),
{
    lemma_reachable(steps, streams, i);
}

/// A plan whose streams are all there is taken as a whole.
pub proof fn plans_with_all_streams_succeed(steps: Seq<OutputStep>, streams: int)
    requires
        forall|k: int| 0 <= k < steps.len() ==> (#[trigger] steps[k]).input() < streams,
    ensures
        StreamPlanModel::of(steps, streams).steps == steps,
        StreamPlanModel::of(steps, streams).failure is None,
{
    lemma_reachable(steps, streams, steps.len() as int);
    assert(steps.take(steps.len() as int) =~= steps);
}

/// In a run that does not fail, all output streams are made before the header, the
/// header comes before the packets, every encoder is flushed after them and before
/// the trailer, and nothing comes twice.
pub proof fn runs_go_in_order(
    plan: StreamPlanModel,
    container: ContainerFormat,
    chapters: int,
    has_metadata: bool,
    i: int,
    k: int,
)
    requires
        plan.failure is None,
        0 <= chapters <= usize::MAX,
    ensures
        ({
            let stages = run_stages(plan, container, chapters, has_metadata);
            let n = plan.steps.len() as int;
            let t: int = if container is Mp4 {
                1
            } else {
                0
            };
            let m: int = if has_metadata {
                1
            } else {
                0
            };
            let h = n + t + chapters + m;
            &&& 0 <= i < n ==> stages[i] == (RunStage::MakeStream { step: plan.steps[i] })
            &&& container is Mp4 ==> stages[n] == RunStage::SetCodecTags
            &&& 0 <= k < chapters ==> stages[n + t + k] == (RunStage::AddChapter {
                index: k as usize,
            })
            &&& has_metadata ==> stages[n + t + chapters] == RunStage::SetMetadata
            &&& stages[h] == RunStage::WriteHeader
            &&& stages[h + 1] == RunStage::PumpPackets
            &&& stages.len() == h + 2 + flushing(plan.steps).len() + 1
            &&& stages.last() == RunStage::WriteTrailer
            &&& 0 <= i < n && plan.steps[i] is EncodeVideo ==> flushing(plan.steps).contains(
                RunStage::FlushVideo,
            )
            &&& 0 <= i < n ==> (plan.steps[i] matches OutputStep::EncodeAudio {
                transcoder_idx,
                ..
            } ==> flushing(plan.steps).contains(RunStage::FlushAudio { transcoder_idx }))
            &&& stages.subrange(h + 2, h + 2 + flushing(plan.steps).len()) == flushing(plan.steps)
        }),
{
    let stages = run_stages(plan, container, chapters, has_metadata);
    let head = heading(container, chapters, has_metadata);
    let made = making(plan.steps);
    let f = flushing(plan.steps);
    if 0 <= i < plan.steps.len() {
        lemma_flushed(plan.steps, i);
    }
    let t: int = if container is Mp4 {
        1
    } else {
        0
    };
    let m: int = if has_metadata {
        1
    } else {
        0
    };
    assert(head.len() == t + chapters + m);
    let h = made.len() + head.len();
    assert(stages.subrange(h as int + 2, h as int + 2 + f.len()) =~= f);
}

proof fn lemma_flushed(steps: Seq<OutputStep>, i: int)
    requires
        0 <= i < steps.len(),
    ensures
        steps[i] is EncodeVideo ==> flushing(steps).contains(RunStage::FlushVideo),
        steps[i] matches OutputStep::EncodeAudio { transcoder_idx, .. } ==> flushing(
            steps,
        ).contains(RunStage::FlushAudio { transcoder_idx }),
    decreases steps.len(),
{
    let before = flushing(steps.drop_last());
    let after = flushing(steps);
    if i < steps.len() - 1 {
        lemma_flushed(steps.drop_last(), i);
        assert forall|stage: RunStage| before.contains(stage) implies after.contains(stage) by {
            let k = choose|k: int| 0 <= k < before.len() && before[k] == stage;
            assert(after[k] == stage);
        }
    } else {
        match steps[i] {
            OutputStep::EncodeVideo { .. } => {
                assert(after[before.len() as int] == RunStage::FlushVideo);
            },
            OutputStep::EncodeAudio { transcoder_idx, .. } => {
                assert(after[before.len() as int] == (RunStage::FlushAudio { transcoder_idx }));
            },
            _ => {},
        }
    }
}

// --- how timestamps run ---

/// A tracker's threshold is one second: for a time base of `num / den` seconds a
/// tick, the largest number of ticks that is no longer than that.
pub proof fn the_threshold_is_a_second(time_base: TimeBase)
    requires
        time_base.num > 0,
        time_base.den >= 0,
    ensures
        ({
            let ticks = CopyPtsTracker::fresh(time_base).one_sec_threshold;
            ticks * time_base.num <= time_base.den < (ticks + 1) * time_base.num
        }),
        CopyPtsTracker::fresh(time_base).offset is None,
        CopyPtsTracker::fresh(time_base).expected_next_pts == 0,
        CopyPtsTracker::fresh(time_base).pts_correction == 0,
{
    timing::seconds_are_measured(time_base);
}

/// A packet that is no more than a second off what is expected, and in audio any
/// that comes later than that, leaves with its timestamps moved by the offset and
/// the correction alone, and is what the next one is measured by.
pub proof fn ordinary_packets_are_only_moved(
    tracker: CopyPtsTracker,
    pts: i64,
    dts: Option<i64>,
    is_audio: bool,
    out: int,
)
    requires
        tracker.offset is Some,
        out == pts - tracker.offset->0 + tracker.pts_correction,
        timing::fits(out),
        tracker.expected_next_pts == 0 || (tracker.expected_next_pts - tracker.one_sec_threshold
            <= out && (is_audio || out <= tracker.expected_next_pts + tracker.one_sec_threshold)),
    ensures
        tracker.adjusted(Some(pts), dts, is_audio).0 == Some(out),
        tracker.adjusted(Some(pts), dts, is_audio).1 == match dts {
            Some(d) => Some(d - tracker.offset->0 + tracker.pts_correction),
            None => None,
        },
        tracker.after(Some(pts), dts, is_audio).expected_next_pts == out,
        tracker.after(Some(pts), dts, is_audio).pts_correction == tracker.pts_correction,
        tracker.after(Some(pts), dts, is_audio).offset == tracker.offset,
        tracker.after(Some(pts), dts, is_audio).one_sec_threshold == tracker.one_sec_threshold,
{
}

/// A packet further off is put where one was expected, the packets behind it move
/// along with it, and the next one is taken as it comes.
pub proof fn jumping_packets_are_pulled_back(
    tracker: CopyPtsTracker,
    pts: i64,
    dts: Option<i64>,
    is_audio: bool,
    out: int,
    next: i64,
)
    requires
        tracker.adjustable(Some(pts), dts, is_audio),
        tracker.offset is Some,
        tracker.expected_next_pts != 0,
        out == pts - tracker.offset->0 + tracker.pts_correction,
        tracker.expected_next_pts - tracker.one_sec_threshold > out || (!is_audio && out
            > tracker.expected_next_pts + tracker.one_sec_threshold),
    ensures
        tracker.adjusted(Some(pts), dts, is_audio).0 == Some(tracker.expected_next_pts as int),
        tracker.adjusted(Some(pts), dts, is_audio).1 == match dts {
            Some(d) => Some(tracker.expected_next_pts + (d - pts)),
            None => None,
        },
        tracker.after(Some(pts), dts, is_audio).expected_next_pts == 0,
        tracker.after(Some(pts), dts, is_audio).adjusted(Some(next), None, is_audio).0 == Some(
            tracker.expected_next_pts + (next - pts),
        ),
{
}

/// A packet without timestamps passes as it is and leaves the tracker as it is; one
/// with a DTS alone moves by the offset and the correction.
pub proof fn packets_without_pts_are_only_moved(
    tracker: CopyPtsTracker,
    dts: Option<i64>,
    is_audio: bool,
)
    ensures
        tracker.adjusted(None, dts, is_audio).0 is None,
        dts is None ==> tracker.adjusted(None, dts, is_audio).1 is None && tracker.after(
            None,
            dts,
            is_audio,
        ) == tracker,
        dts matches Some(d) ==> tracker.offset matches Some(o) ==> tracker.adjusted(
            None,
            dts,
            is_audio,
        ).1 == Some(d - o + tracker.pts_correction) && tracker.after(None, dts, is_audio)
            == tracker,
{
}

/// Where no later step takes the same input, a packet of a stream that a step takes
/// goes to that step: of a copied stream to the step's output stream, of an encoded
/// one to its encoder. None is dropped.
pub proof fn every_planned_packet_is_routed(
    steps: Seq<OutputStep>,
    out_indices: Seq<usize>,
    i: int,
    route: PacketRoute,
)
    requires
        0 <= i < steps.len(),
        out_indices.len() == steps.len(),
        forall|k: int|
            i < k < steps.len() ==> (#[trigger] steps[k]).input() != steps[i].input(),
        route.follows(
            stream_action(steps, out_indices, steps.len() as int, steps[i].input() as int),
        ),
    ensures
        match steps[i] {
            OutputStep::CopyVideo { .. } => route matches PacketRoute::Write { out_idx, .. }
                && out_idx == out_indices[i],
            OutputStep::CopyAudio { .. } => route matches PacketRoute::Write { out_idx, .. }
                && out_idx == out_indices[i],
            OutputStep::CopySubtitle { .. } => route == (PacketRoute::Rescale {
                out_idx: out_indices[i],
            }),
            OutputStep::EncodeVideo { .. } => route == PacketRoute::FeedVideo,
            OutputStep::EncodeAudio { transcoder_idx, .. } => route == (PacketRoute::FeedAudio {
                transcoder_idx,
            }),
        },
        route != PacketRoute::Drop,
{
    every_planned_stream_arrives(steps, out_indices, i);
}

/// In an MP4 file, a codec is marked by four characters, the first in the lowest
/// byte: `avc1`, `hvc1`, `ac-3`, `ec-3` or `mp4a`. Others are not marked.
pub proof fn tags_spell_their_codecs(codec: Mp4Codec)
    ensures
        codec is H264 ==> tag_of(codec) == Some(0x3163_7661int),
        codec is Hevc ==> tag_of(codec) == Some(0x3163_7668int),
        codec is Ac3 ==> tag_of(codec) == Some(0x332D_6361int),
        codec is Eac3 ==> tag_of(codec) == Some(0x332D_6365int),
        codec is Aac ==> tag_of(codec) == Some(0x6134_706Dint),
        codec is Other ==> tag_of(codec) is None,
{
}

/// A stream is marked with its language, then with its title, as far as they are
/// known.
pub proof fn streams_are_marked_with_language_and_title(lang: Seq<char>, title: Seq<char>)
    ensures
        metadata_entries(None, None).len() == 0,
        metadata_entries(Some(lang), None) == seq![("language"@, lang)],
        metadata_entries(None, Some(title)) == seq![("title"@, title)],
        metadata_entries(Some(lang), Some(title)) == seq![("language"@, lang), ("title"@, title)],
{
}

/// The timestamps of exactly those streams are kept track of that are copied.
pub proof fn copied_streams_are_tracked(router: PacketRouter, i: int)
    requires
        router.well_formed(),
        0 <= i < router.actions.len(),
    ensures
        router.trackers[i] is Some <==> match router.actions[i] {
            StreamAction::CopyVideo { .. } => true,
            StreamAction::CopyAudio { .. } => true,
            StreamAction::CopySubtitle { .. } => true,
            StreamAction::EncodeVideo => false,
            StreamAction::EncodeAudio { .. } => false,
            StreamAction::Drop => false,
        },
{
}

} // verus!
