use discrip::transcode::audio::{
    drained, sent, set_up_audio, AudioFramer, AudioShape, Chunk, CodecReply, ReplyAction,
    SampleFormat, SampleType,
};
use discrip::transcode::config::{
    AudioAction, AudioConfig, ChapterInfo, ContainerFormat, SubtitleConfig, VideoCodec, VideoConfig,
};
use discrip::transcode::error::TranscodeError;
use discrip::transcode::pipeline::{
    action_table, copied_aspect_ratio, lay_out_run, mp4_codec_tag, plan_streams, stream_metadata,
    video_source, CopyPtsTracker, Mp4Codec, OutputStep, PacketRoute, PacketRouter, RunStage,
    StreamAction,
};
use discrip::transcode::timing::{truncated_quotient, TimeBase};
use discrip::transcode::video::{
    encoder_options, set_up_video, ColorTags, FrameClock, VideoSource,
};
use discrip::transcode::TranscodeJob;

const TB: TimeBase = TimeBase { num: 1, den: 1000 };

fn audio(source_stream: usize, encode: bool) -> AudioConfig {
    AudioConfig {
        source_stream,
        language: None,
        name: None,
        action: if encode { AudioAction::encode_aac(Some(128_000)) } else { AudioAction::Copy },
    }
}

fn subtitle(source_stream: usize) -> SubtitleConfig {
    SubtitleConfig { source_stream, language: None, name: None, forced: false }
}

#[test]
fn quotients_round_toward_zero() {
    assert_eq!(truncated_quotient(7, 2), 3);
    assert_eq!(truncated_quotient(-7, 2), -3);
    assert_eq!(truncated_quotient(7, -2), -3);
    assert_eq!(truncated_quotient(-7, -2), 3);
    assert_eq!(TimeBase { num: 1001, den: 30_000 }.ticks_per_second(), 29);
    assert_eq!(TimeBase { num: 0, den: 25 }.ticks_per_second(), 25);
}

#[test]
fn the_first_timestamp_is_zero() {
    let mut t = CopyPtsTracker::new(TB);
    assert_eq!(t.adjust(Some(540), Some(500), false), (Some(40), Some(0)));
    assert_eq!(t.adjust(Some(580), Some(540), false), (Some(80), Some(40)));
    let mut t = CopyPtsTracker::new(TB);
    assert_eq!(t.adjust(None, None, false), (None, None));
    assert_eq!(t.adjust(Some(7), None, false), (Some(0), None));
    assert_eq!(t.adjust(None, Some(9), false), (None, Some(2)));
}

#[test]
fn copied_jumps_are_closed() {
    let mut t = CopyPtsTracker::new(TB);
    t.adjust(Some(100), Some(100), false);
    t.adjust(Some(140), Some(140), false);
    // A jump of far more than a second lands on the timestamp before it.
    assert_eq!(t.adjust(Some(90_000), Some(89_990), false), (Some(40), Some(30)));
    assert_eq!(t.pts_correction, -89_860);
    assert_eq!(t.expected_next_pts, 0);
    // The next packet is taken as it comes.
    assert_eq!(t.adjust(Some(90_040), Some(90_030), false), (Some(80), Some(70)));
    // A gap of exactly a second is none.
    assert_eq!(t.adjust(Some(91_040), None, false), (Some(1080), None));
}

#[test]
fn silence_in_audio_is_kept() {
    let mut t = CopyPtsTracker::new(TB);
    t.adjust(Some(0), Some(0), true);
    t.adjust(Some(10), Some(10), true);
    assert_eq!(t.adjust(Some(60_000), Some(60_000), true), (Some(60_000), Some(60_000)));
    assert_eq!(t.adjust(Some(10), Some(10), true), (Some(60_000), Some(60_000)));
}

#[test]
fn adjusting_keeps_pts_behind_dts() {
    let mut t = CopyPtsTracker::new(TB);
    for (pts, dts) in [(200, 100), (160, 120), (99_000, 98_000), (5, 1)] {
        let (p, d) = t.adjust(Some(pts), Some(dts), false);
        assert_eq!(p.unwrap() - d.unwrap(), pts - dts);
    }
}

#[test]
fn out_of_range_timestamps_are_seen() {
    let mut t = CopyPtsTracker::new(TB);
    t.adjust(Some(-2), None, false);
    assert!(!t.can_adjust(Some(i64::MAX), None, false));
    assert!(t.can_adjust(Some(i64::MAX - 2), None, false));
    assert!(CopyPtsTracker::new(TB).can_adjust(Some(i64::MIN), Some(i64::MIN), false));
}

#[test]
fn frames_start_at_zero_and_jumps_are_closed() {
    let mut clock = FrameClock::new(TB, Some((25, 1)));
    assert_eq!(clock.frame_duration, Some(40));
    assert_eq!(clock.normalize(1_000), 0);
    assert_eq!(clock.normalize(1_040), 40);
    assert_eq!(clock.expected_next_pts, 80);
    assert_eq!(clock.normalize(50_000), 80);
    assert_eq!(clock.normalize(50_040), 120);
    assert_eq!(clock.normalize(1_000), 160);
    assert!(!clock.can_normalize(i64::MIN));
}

#[test]
fn without_a_frame_rate_nothing_is_expected() {
    for rate in [None, Some((0, 1)), Some((25, 0)), Some((-25, 1))] {
        let mut clock = FrameClock::new(TB, rate);
        assert_eq!(clock.frame_duration, None);
        assert_eq!(clock.normalize(5), 0);
        assert_eq!(clock.normalize(1_000_005), 1_000_000);
    }
    let film = FrameClock::new(TimeBase { num: 1, den: 90_000 }, Some((24_000, 1001)));
    assert_eq!(film.frame_duration, Some(3753));
}

#[test]
fn encoder_options_are_set_in_order() {
    let extra = vec![("tune".to_string(), "film".to_string())];
    assert_eq!(
        encoder_options(Some(20), &Some("slow".to_string()), &extra),
        vec![
            ("crf".to_string(), "20".to_string()),
            ("preset".to_string(), "slow".to_string()),
            ("tune".to_string(), "film".to_string()),
        ]
    );
    assert!(encoder_options(None, &None, &vec![]).is_empty());
}

#[test]
fn video_is_set_up_for_the_target_format() {
    let source = VideoSource {
        pixel_format: 7,
        width: 1920,
        height: 1080,
        time_base: TB,
        frame_rate: Some((25, 1)),
        color: ColorTags { primaries: 1, trc: 2, space: 3, range: 4 },
    };
    let config = VideoConfig { crf: Some(18), ..VideoConfig::default() };
    let setup = set_up_video(source, 0, &config, true);
    assert!(setup.needs_scaler && setup.global_header);
    assert_eq!((setup.pixel_format, setup.width, setup.height), (0, 1920, 1080));
    assert_eq!(setup.color, source.color);
    assert_eq!(setup.options, vec![("crf".to_string(), "18".to_string())]);
    assert_eq!(setup.clock, FrameClock::new(TB, Some((25, 1))));
    assert!(!set_up_video(source, 7, &config, false).needs_scaler);
}

#[test]
fn samples_are_cut_into_frames() {
    let mut framer = AudioFramer::new(1024);
    assert!(!framer.takes_any_size());
    assert_eq!(framer.initial_capacity(), 1024);
    assert_eq!(framer.next_chunk(1023, false), None);
    assert_eq!(framer.next_chunk(2500, false), Some(Chunk { samples: 1024, pts: 0 }));
    assert_eq!(framer.next_chunk(1476, false), Some(Chunk { samples: 1024, pts: 1024 }));
    assert_eq!(framer.next_chunk(452, false), None);
    assert_eq!(framer.next_chunk(452, true), Some(Chunk { samples: 452, pts: 2048 }));
    assert_eq!(framer.next_chunk(0, true), None);
    assert_eq!(framer.next_pts, 2500);
    assert!(AudioFramer::new(0).takes_any_size());
    assert_eq!(AudioFramer::new(0).initial_capacity(), 1);
}

#[test]
fn timestamps_count_samples_over_all_calls() {
    let mut framer = AudioFramer::new(100);
    let mut buffered: i32 = 0;
    let mut sent_before: i64 = 0;
    for (incoming, flush) in [(30, false), (250, false), (0, false), (99, false), (1, true)] {
        let there = buffered + incoming;
        let chunks = framer.cut(there, flush);
        for (i, chunk) in chunks.iter().enumerate() {
            assert_eq!(chunk.pts, sent_before);
            assert!(chunk.samples == 100 || flush && i == chunks.len() - 1);
            sent_before += chunk.samples as i64;
        }
        let taken: i32 = chunks.iter().map(|c| c.samples).sum();
        buffered = there - taken;
        assert_eq!(buffered, if flush { 0 } else { there % 100 });
    }
    assert_eq!(sent_before, 380);
    assert_eq!(framer.next_pts, 380);
    assert!(framer.cut(-5, true).is_empty());
}

#[test]
fn audio_is_set_up_for_the_encoder() {
    let planar = SampleFormat { sample: SampleType::F32, planar: true };
    let input = AudioShape { format: planar, rate: 48_000, layout: 3 };
    let setup = set_up_audio(input, Some(planar), Some(1), true);
    assert_eq!((setup.format, setup.rate, setup.layout), (planar, 48_000, 3));
    assert!(!setup.resample && setup.global_header);
    let setup = set_up_audio(input, None, None, false);
    assert_eq!(setup.format, SampleFormat { sample: SampleType::F32, planar: false });
    assert!(setup.resample);
    assert_eq!(setup.bitrate, None);
}

#[test]
fn codec_replies_are_judged() {
    assert_eq!(drained(CodecReply::Done), ReplyAction::Proceed);
    assert_eq!(drained(CodecReply::Other), ReplyAction::Stop);
    assert_eq!(drained(CodecReply::Eof), ReplyAction::Stop);
    assert_eq!(drained(CodecReply::InvalidData), ReplyAction::Fail);
    assert_eq!(sent(CodecReply::InvalidData), ReplyAction::Stop);
    assert_eq!(sent(CodecReply::Eof), ReplyAction::Fail);
}

#[test]
fn streams_are_planned_in_order() {
    let plan = plan_streams(
        5,
        Some(0),
        VideoCodec::H265,
        &vec![audio(1, false), audio(2, true), audio(1, true)],
        &vec![subtitle(4)],
    );
    assert!(plan.failure.is_none());
    assert_eq!(
        plan.steps,
        vec![
            OutputStep::EncodeVideo { source: 0 },
            OutputStep::CopyAudio { source: 1, track: 0 },
            OutputStep::EncodeAudio { source: 2, track: 1, transcoder_idx: 0 },
            OutputStep::EncodeAudio { source: 1, track: 2, transcoder_idx: 1 },
            OutputStep::CopySubtitle { source: 4, track: 0 },
        ]
    );
    let actions = action_table(5, &plan.steps, &vec![0, 1, 2, 3, 4]);
    assert_eq!(
        actions,
        vec![
            StreamAction::EncodeVideo,
            // The last step that takes a stream wins.
            StreamAction::EncodeAudio { transcoder_idx: 1 },
            StreamAction::EncodeAudio { transcoder_idx: 0 },
            StreamAction::Drop,
            StreamAction::CopySubtitle { out_idx: 4 },
        ]
    );
}

#[test]
fn missing_streams_end_the_plan() {
    let plan = plan_streams(2, Some(0), VideoCodec::Copy, &vec![audio(7, false)], &vec![subtitle(9)]);
    assert_eq!(plan.steps, vec![OutputStep::CopyVideo { source: 0 }]);
    assert_eq!(
        plan.failure.unwrap().message(),
        "Invalid config: Audio source stream 7 not found"
    );
    let plan = plan_streams(2, Some(3), VideoCodec::Av1, &vec![], &vec![]);
    assert_eq!(
        plan.failure.unwrap().message(),
        "Invalid config: Video source stream 3 not found"
    );
    let plan = plan_streams(2, None, VideoCodec::Av1, &vec![], &vec![subtitle(2)]);
    assert_eq!(
        plan.failure.unwrap().message(),
        "Invalid config: Subtitle source stream 2 not found"
    );
}

#[test]
fn runs_are_laid_out() {
    let plan = plan_streams(
        3,
        Some(0),
        VideoCodec::H264,
        &vec![audio(1, true)],
        &vec![],
    );
    assert_eq!(
        lay_out_run(&plan, ContainerFormat::Mp4, 2, true),
        vec![
            RunStage::MakeStream { step: OutputStep::EncodeVideo { source: 0 } },
            RunStage::MakeStream {
                step: OutputStep::EncodeAudio { source: 1, track: 0, transcoder_idx: 0 }
            },
            RunStage::SetCodecTags,
            RunStage::AddChapter { index: 0 },
            RunStage::AddChapter { index: 1 },
            RunStage::SetMetadata,
            RunStage::WriteHeader,
            RunStage::PumpPackets,
            RunStage::FlushVideo,
            RunStage::FlushAudio { transcoder_idx: 0 },
            RunStage::WriteTrailer,
        ]
    );
    let plan = plan_streams(1, Some(0), VideoCodec::Copy, &vec![audio(1, true)], &vec![]);
    assert_eq!(
        lay_out_run(&plan, ContainerFormat::Mkv, 2, true),
        vec![
            RunStage::MakeStream { step: OutputStep::CopyVideo { source: 0 } },
            RunStage::Fail,
        ]
    );
}

#[test]
fn packets_are_routed() {
    let actions = vec![
        StreamAction::CopyVideo { out_idx: 0 },
        StreamAction::CopyAudio { out_idx: 1 },
        StreamAction::CopySubtitle { out_idx: 2 },
        StreamAction::EncodeAudio { transcoder_idx: 3 },
        StreamAction::EncodeVideo,
        StreamAction::Drop,
    ];
    let mut router = PacketRouter::new(actions, &vec![TB; 6]);
    assert_eq!(
        router.route(0, Some(50), Some(40)),
        PacketRoute::Write { out_idx: 0, pts: Some(10), dts: Some(0) }
    );
    // Each stream has an offset of its own.
    assert_eq!(
        router.route(1, Some(70), None),
        PacketRoute::Write { out_idx: 1, pts: Some(0), dts: None }
    );
    assert_eq!(router.route(2, Some(70), None), PacketRoute::Rescale { out_idx: 2 });
    assert_eq!(router.route(3, None, None), PacketRoute::FeedAudio { transcoder_idx: 3 });
    assert_eq!(router.route(4, None, None), PacketRoute::FeedVideo);
    assert_eq!(router.route(5, None, None), PacketRoute::Drop);
    assert!(router.trackers[2].is_some());
    assert!(router.trackers[3].is_none());
    assert!(!router.can_route(6, None, None));
    assert!(!router.can_route(0, Some(i64::MIN), None));
    assert!(router.can_route(5, Some(i64::MIN), None));
}

#[test]
fn tags_spell_the_codec() {
    let spelled = |codec| mp4_codec_tag(codec).map(|t: u32| t.to_le_bytes());
    assert_eq!(spelled(Mp4Codec::H264), Some(*b"avc1"));
    assert_eq!(spelled(Mp4Codec::Hevc), Some(*b"hvc1"));
    assert_eq!(spelled(Mp4Codec::Ac3), Some(*b"ac-3"));
    assert_eq!(spelled(Mp4Codec::Eac3), Some(*b"ec-3"));
    assert_eq!(spelled(Mp4Codec::Aac), Some(*b"mp4a"));
    assert_eq!(mp4_codec_tag(Mp4Codec::Other), None);
}

#[test]
fn stream_metadata_names_language_and_title() {
    assert_eq!(
        stream_metadata(&Some("deu".to_string()), &Some("Deutsch".to_string())),
        vec![
            ("language".to_string(), "deu".to_string()),
            ("title".to_string(), "Deutsch".to_string()),
        ]
    );
    assert!(stream_metadata(&None, &None).is_empty());
    assert_eq!(copied_aspect_ratio((0, 1), (64, 45)), (64, 45));
    assert_eq!(copied_aspect_ratio((16, 11), (64, 45)), (16, 11));
}

#[test]
fn jobs_are_built_up() {
    let job = TranscodeJob::new("in.m2ts", "out.mkv");
    assert_eq!(job.container, ContainerFormat::Mkv);
    assert_eq!(job.video.codec, VideoCodec::Copy);
    let job = job
        .container(ContainerFormat::Mp4)
        .video(VideoConfig { codec: VideoCodec::Av1, ..VideoConfig::default() })
        .add_audio(audio(1, true))
        .add_audio(audio(2, false))
        .add_subtitle(subtitle(3))
        .chapters(vec![ChapterInfo { id: 1, title: "One".to_string(), start_ms: 0, end_ms: 5 }])
        .metadata("title", "T");
    assert_eq!(job.input_path, "in.m2ts");
    assert_eq!(job.output_path, "out.mkv");
    assert_eq!(job.container.format_name(), "mp4");
    assert_eq!(job.video.codec.encoder_name(), Some("libsvtav1"));
    assert_eq!(job.audio_tracks.len(), 2);
    assert_eq!(job.audio_tracks[1].source_stream, 2);
    assert_eq!(job.subtitle_tracks[0].source_stream, 3);
    assert_eq!(job.chapters[0].title, "One");
    assert_eq!(job.metadata, vec![("title".to_string(), "T".to_string())]);
    assert_eq!(video_source(&job.video, Some(4)), Some(4));
    assert_eq!(VideoCodec::from_name("vp9"), VideoCodec::Copy);
    assert_eq!(VideoCodec::Copy.encoder_name(), None);
}

#[test]
fn transcode_errors_say_what_failed() {
    let s = |e: TranscodeError| e.message();
    assert_eq!(s(TranscodeError::Ffmpeg("x".to_string())), "FFmpeg error: x");
    assert_eq!(s(TranscodeError::EncoderNotFound("x".to_string())), "Encoder not found: x");
    assert_eq!(s(TranscodeError::DecoderNotFound("x".to_string())), "Decoder not found: x");
    assert_eq!(s(TranscodeError::InvalidConfig("x".to_string())), "Invalid config: x");
    assert_eq!(s(TranscodeError::Io("x".to_string())), "IO error: x");
}
