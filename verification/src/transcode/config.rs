//! What a transcode is asked to do with each stream.
use vstd::prelude::*;

use crate::config::TranscodeConfig;
use crate::{list, text};

verus! {

/// Video codec to use when re-encoding
#[derive(Clone, Copy, Debug, PartialEq, Eq, Structural)]
pub enum VideoCodec {
    H264,  // libx264
    H265,  // libx265
    Av1,  // libsvtav1
    Copy,
}

impl VideoCodec {
    /// The codec that a configuration names; anything unknown means copying.
    pub open spec fn named(name: Seq<char>) -> VideoCodec {
        if name == "h264"@ {
            VideoCodec::H264
        } else if name == "h265"@ {
            VideoCodec::H265
        } else if name == "av1"@ {
            VideoCodec::Av1
        } else {
            VideoCodec::Copy
        }
    }

    /// The codec that a configuration names; anything unknown means copying.
    pub fn from_name(name: &str) -> (r: VideoCodec)
        ensures
            r == VideoCodec::named(name@),
    {
        if text::same_text(name, "h264") {
            VideoCodec::H264
        } else if text::same_text(name, "h265") {
            VideoCodec::H265
        } else if text::same_text(name, "av1") {
            VideoCodec::Av1
        } else {
            VideoCodec::Copy
        }
    }

    /// The encoder that the codec library knows, none for copying.
    pub open spec fn encoder(self) -> Option<Seq<char>> {
        match self {
            VideoCodec::H264 => Some("libx264"@),
            VideoCodec::H265 => Some("libx265"@),
            VideoCodec::Av1 => Some("libsvtav1"@),
            VideoCodec::Copy => None,
        }
    }

    pub fn encoder_name(&self) -> (r: Option<&'static str>)
        ensures
            match r {
                Some(name) => self.encoder() == Some(name@),
                None => self.encoder() is None,
            },
    {
        match self {
            VideoCodec::H264 => Some("libx264"),
            VideoCodec::H265 => Some("libx265"),
            VideoCodec::Av1 => Some("libsvtav1"),
            VideoCodec::Copy => None,
        }
    }
}

#[derive(Debug)]
pub struct VideoConfig {
    pub codec: VideoCodec,
    /// Constant Rate Factor (lower = better quality, larger file)
    pub crf: Option<u32>,
    /// Encoder preset ("ultrafast", "slow", "veryslow", etc.)
    pub preset: Option<String>,
    /// Additional codec-private AVOption key/value pairs
    pub extra_options: Vec<(String, String)>,
    /// Override source stream index; None = auto-detect best video stream
    pub source_stream: Option<usize>,
}

/// What a `VideoConfig` says.
pub ghost struct VideoConfigModel {
    pub codec: VideoCodec,
    pub crf: Option<u32>,
    pub preset: Option<Seq<char>>,
    pub extra_options: Seq<(Seq<char>, Seq<char>)>,
    pub source_stream: Option<usize>,
}

impl DeepView for VideoConfig {
    type V = VideoConfigModel;

    open spec fn deep_view(&self) -> VideoConfigModel {
        VideoConfigModel {
            codec: self.codec,
            crf: self.crf,
            preset: self.preset.deep_view(),
            extra_options: self.extra_options.deep_view(),
            source_stream: self.source_stream,
        }
    }
}

impl VideoConfigModel {
    /// The video stream is found by itself and copied.
    pub open spec fn copying() -> VideoConfigModel {
        VideoConfigModel {
            codec: VideoCodec::Copy,
            crf: None,
            preset: None,
            extra_options: Seq::empty(),
            source_stream: None,
        }
    }

    /// The video stream is found by itself and treated as asked.
    pub open spec fn asked(
        codec: VideoCodec,
        crf: Option<u32>,
        preset: Option<Seq<char>>,
    ) -> VideoConfigModel {
        VideoConfigModel { codec, crf, preset, ..VideoConfigModel::copying() }
    }
}

impl Default for VideoConfig {
    fn default() -> (r: Self)
        ensures
            r.deep_view() == VideoConfigModel::copying(),
    {
        VideoConfig {
            codec: VideoCodec::Copy,
            crf: None,
            preset: None,
            extra_options: list::empty(),
            source_stream: None,
        }
    }
}

impl Clone for VideoConfig {
    fn clone(&self) -> (r: Self)
        ensures
            r.deep_view() == self.deep_view(),
    {
        VideoConfig {
            codec: self.codec,
            crf: self.crf,
            preset: text::copy_opt(&self.preset),
            extra_options: text::copy_pairs(&self.extra_options),
            source_stream: self.source_stream,
        }
    }
}

impl VideoConfig {
    pub fn from_transcode_config(tc: &TranscodeConfig) -> (r: Self)
        ensures
            r.deep_view() == VideoConfigModel::asked(
                VideoCodec::named(tc.video_codec@),
                tc.crf,
                tc.preset.deep_view(),
            ),
    {
        VideoConfig {
            codec: VideoCodec::from_name(tc.video_codec.as_str()),
            crf: tc.crf,
            preset: text::copy_opt(&tc.preset),
            extra_options: list::empty(),
            source_stream: None,
        }
    }
}

/// What to do with an audio track
#[derive(Debug)]
pub enum AudioAction {
    Copy,
    Encode {
        /// Codec name passed to ffmpeg encoder ("aac", "libopus", "flac", etc.)
        codec_name: String,
        /// Bitrate in bits/sec; None = encoder default
        bitrate: Option<u64>,
        /// Additional codec-private AVOption key/value pairs
        extra_options: Vec<(String, String)>,
    },
}

/// What an `AudioAction` says.
pub ghost enum AudioActionModel {
    Copy,
    Encode {
        codec_name: Seq<char>,
        bitrate: Option<u64>,
        extra_options: Seq<(Seq<char>, Seq<char>)>,
    },
}

impl DeepView for AudioAction {
    type V = AudioActionModel;

    open spec fn deep_view(&self) -> AudioActionModel {
        match *self {
            AudioAction::Copy => AudioActionModel::Copy,
            AudioAction::Encode { codec_name, bitrate, extra_options } => AudioActionModel::Encode {
                codec_name: codec_name@,
                bitrate,
                extra_options: extra_options.deep_view(),
            },
        }
    }
}

impl AudioActionModel {
    /// Encoding as AAC.
    pub open spec fn aac(bitrate: Option<u64>) -> AudioActionModel {
        AudioActionModel::Encode { codec_name: "aac"@, bitrate, extra_options: Seq::empty() }
    }
}

impl AudioAction {
    /// Encoding as AAC.
    pub fn encode_aac(bitrate: Option<u64>) -> (r: AudioAction)
        ensures
            r.deep_view() == AudioActionModel::aac(bitrate),
    {
        AudioAction::Encode {
            codec_name: "aac".to_owned(),
            bitrate,
            extra_options: list::empty(),
        }
    }
}

impl Clone for AudioAction {
    fn clone(&self) -> (r: Self)
        ensures
            r.deep_view() == self.deep_view(),
    {
        match self {
            AudioAction::Copy => AudioAction::Copy,
            AudioAction::Encode { codec_name, bitrate, extra_options } => {
                let options = text::copy_pairs(extra_options);
                assert(options.deep_view() == extra_options.deep_view());
                AudioAction::Encode {
                    codec_name: codec_name.clone(),
                    bitrate: *bitrate,
                    extra_options: options,
                }
            },
        }
    }
}

#[derive(Debug)]
pub struct AudioConfig {
    /// Input stream index
    pub source_stream: usize,
    /// ISO 639-2 language tag written to output stream metadata
    pub language: Option<String>,
    /// Human-readable track name (e.g. "Director's Commentary")
    pub name: Option<String>,
    pub action: AudioAction,
}

/// What an `AudioConfig` says.
pub ghost struct AudioConfigModel {
    pub source_stream: usize,
    pub language: Option<Seq<char>>,
    pub name: Option<Seq<char>>,
    pub action: AudioActionModel,
}

impl DeepView for AudioConfig {
    type V = AudioConfigModel;

    open spec fn deep_view(&self) -> AudioConfigModel {
        AudioConfigModel {
            source_stream: self.source_stream,
            language: self.language.deep_view(),
            name: self.name.deep_view(),
            action: self.action.deep_view(),
        }
    }
}

impl Clone for AudioConfig {
    fn clone(&self) -> (r: Self)
        ensures
            r.deep_view() == self.deep_view(),
    {
        AudioConfig {
            source_stream: self.source_stream,
            language: text::copy_opt(&self.language),
            name: text::copy_opt(&self.name),
            action: self.action.clone(),
        }
    }
}

#[derive(Debug)]
pub struct SubtitleConfig {
    /// Input stream index
    pub source_stream: usize,
    /// ISO 639-2 language tag written to output stream metadata
    pub language: Option<String>,
    /// Human-readable track name (e.g. "Forced", "Full")
    pub name: Option<String>,
    /// Whether this subtitle stream has the forced disposition
    pub forced: bool,
}

/// What a `SubtitleConfig` says.
pub ghost struct SubtitleConfigModel {
    pub source_stream: usize,
    pub language: Option<Seq<char>>,
    pub name: Option<Seq<char>>,
    pub forced: bool,
}

impl DeepView for SubtitleConfig {
    type V = SubtitleConfigModel;

    open spec fn deep_view(&self) -> SubtitleConfigModel {
        SubtitleConfigModel {
            source_stream: self.source_stream,
            language: self.language.deep_view(),
            name: self.name.deep_view(),
            forced: self.forced,
        }
    }
}

impl Clone for SubtitleConfig {
    fn clone(&self) -> (r: Self)
        ensures
            r.deep_view() == self.deep_view(),
    {
        SubtitleConfig {
            source_stream: self.source_stream,
            language: text::copy_opt(&self.language),
            name: text::copy_opt(&self.name),
            forced: self.forced,
        }
    }
}

/// A chapter mark to write into the output container
#[derive(Debug)]
pub struct ChapterInfo {
    /// Unique numeric ID (1-based)
    pub id: i64,
    /// Human-readable title
    pub title: String,
    /// Start time in milliseconds
    pub start_ms: i64,
    /// End time in milliseconds
    pub end_ms: i64,
}

/// What a `ChapterInfo` says.
pub ghost struct ChapterInfoModel {
    pub id: int,
    pub title: Seq<char>,
    pub start_ms: int,
    pub end_ms: int,
}

impl DeepView for ChapterInfo {
    type V = ChapterInfoModel;

    open spec fn deep_view(&self) -> ChapterInfoModel {
        ChapterInfoModel {
            id: self.id as int,
            title: self.title@,
            start_ms: self.start_ms as int,
            end_ms: self.end_ms as int,
        }
    }
}

impl Clone for ChapterInfo {
    fn clone(&self) -> (r: Self)
        ensures
            r.deep_view() == self.deep_view(),
    {
        ChapterInfo {
            id: self.id,
            title: self.title.clone(),
            start_ms: self.start_ms,
            end_ms: self.end_ms,
        }
    }
}

#[derive(Clone, Copy, Debug, PartialEq, Eq, Structural)]
pub enum ContainerFormat {
    Mkv,
    Mp4,
}

impl ContainerFormat {
    /// The muxer's name.
    pub open spec fn muxer(self) -> Seq<char> {
        match self {
            ContainerFormat::Mkv => "matroska"@,
            ContainerFormat::Mp4 => "mp4"@,
        }
    }

    pub fn format_name(&self) -> (r: &'static str)
        ensures
            r@ == self.muxer(),
    {
        match self {
            ContainerFormat::Mkv => "matroska",
            ContainerFormat::Mp4 => "mp4",
        }
    }
}

/// The codecs have names and encoders of their own; any other name means that the
/// video is copied, which needs no encoder.
pub proof fn codecs_are_named(name: Seq<char>)
    ensures
        VideoCodec::named("h264"@) is H264,
        VideoCodec::named("h265"@) is H265,
        VideoCodec::named("av1"@) is Av1,
        name != "h264"@ && name != "h265"@ && name != "av1"@ ==> VideoCodec::named(name) is Copy,
        VideoCodec::H264.encoder() == Some("libx264"@),
        VideoCodec::H265.encoder() == Some("libx265"@),
        VideoCodec::Av1.encoder() == Some("libsvtav1"@),
        VideoCodec::Copy.encoder() is None,
{
    reveal_strlit("h264");
    reveal_strlit("h265");
    reveal_strlit("av1");
    assert("h264"@[3] == '4' && "h265"@[3] == '5');
    assert("av1"@.len() == 3);
}

/// Each container is written by a muxer of its own.
pub proof fn containers_have_their_muxers(container: ContainerFormat)
    ensures
        container is Mkv ==> container.muxer() == "matroska"@,
        container is Mp4 ==> container.muxer() == "mp4"@,
{
}

} // verus!
