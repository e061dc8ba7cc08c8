//! Transcoding: what is written to the output file and how timestamps run.
use vstd::prelude::*;

use self::config::{AudioConfig, ChapterInfo, ContainerFormat, SubtitleConfig, VideoConfig};
use crate::list;

pub mod audio;
pub mod config;
pub mod error;
pub mod pipeline;
pub mod timing;
pub mod video;

verus! {

/// One transcode: an input file, an output file and what goes into it.
#[derive(Debug)]
pub struct TranscodeJob {
    pub input_path: String,
    pub output_path: String,
    pub container: ContainerFormat,
    pub video: VideoConfig,
    pub audio_tracks: Vec<AudioConfig>,
    pub subtitle_tracks: Vec<SubtitleConfig>,
    pub chapters: Vec<ChapterInfo>,
    pub metadata: Vec<(String, String)>,
}

/// What a `TranscodeJob` says.
pub ghost struct TranscodeJobModel {
    pub input_path: Seq<char>,
    pub output_path: Seq<char>,
    pub container: ContainerFormat,
    pub video: config::VideoConfigModel,
    pub audio_tracks: Seq<config::AudioConfigModel>,
    pub subtitle_tracks: Seq<config::SubtitleConfigModel>,
    pub chapters: Seq<config::ChapterInfoModel>,
    pub metadata: Seq<(Seq<char>, Seq<char>)>,
}

impl DeepView for TranscodeJob {
    type V = TranscodeJobModel;

    open spec fn deep_view(&self) -> TranscodeJobModel {
        TranscodeJobModel {
            input_path: self.input_path@,
            output_path: self.output_path@,
            container: self.container,
            video: self.video.deep_view(),
            audio_tracks: self.audio_tracks.deep_view(),
            subtitle_tracks: self.subtitle_tracks.deep_view(),
            chapters: self.chapters.deep_view(),
            metadata: self.metadata.deep_view(),
        }
    }
}

impl TranscodeJobModel {
    /// A Matroska file with the video copied and nothing else.
    pub open spec fn fresh(input: Seq<char>, output: Seq<char>) -> TranscodeJobModel {
        TranscodeJobModel {
            input_path: input,
            output_path: output,
            container: ContainerFormat::Mkv,
            video: config::VideoConfigModel::copying(),
            audio_tracks: Seq::empty(),
            subtitle_tracks: Seq::empty(),
            chapters: Seq::empty(),
            metadata: Seq::empty(),
        }
    }
}

impl TranscodeJob {
    pub fn new(input: &str, output: &str) -> (r: Self)
        ensures
            r.deep_view() == TranscodeJobModel::fresh(input@, output@),
    {
        TranscodeJob {
            input_path: input.to_owned(),
            output_path: output.to_owned(),
            container: ContainerFormat::Mkv,
            video: VideoConfig::default(),
            audio_tracks: list::empty(),
            subtitle_tracks: list::empty(),
            chapters: list::empty(),
            metadata: list::empty(),
        }
    }

    pub fn container(self, fmt: ContainerFormat) -> (r: Self)
        ensures
            r.deep_view() == (TranscodeJobModel { container: fmt, ..self.deep_view() }),
    {
        let mut job = self;
        job.container = fmt;
        job
    }

    pub fn video(self, cfg: VideoConfig) -> (r: Self)
        ensures
            r.deep_view() == (TranscodeJobModel { video: cfg.deep_view(), ..self.deep_view() }),
    {
        let mut job = self;
        job.video = cfg;
        job
    }

    pub fn add_audio(self, cfg: AudioConfig) -> (r: Self)
        ensures
            r.deep_view() == (TranscodeJobModel {
                audio_tracks: self.deep_view().audio_tracks.push(cfg.deep_view()),
                ..self.deep_view()
            }),
    {
        let mut job = self;
        list::push(&mut job.audio_tracks, cfg);
        job
    }

    pub fn add_subtitle(self, cfg: SubtitleConfig) -> (r: Self)
        ensures
            r.deep_view() == (TranscodeJobModel {
                subtitle_tracks: self.deep_view().subtitle_tracks.push(cfg.deep_view()),
                ..self.deep_view()
            }),
    {
        let mut job = self;
        list::push(&mut job.subtitle_tracks, cfg);
        job
    }

    pub fn chapters(self, chapters: Vec<ChapterInfo>) -> (r: Self)
        ensures
            r.deep_view() == (TranscodeJobModel {
                chapters: chapters.deep_view(),
                ..self.deep_view()
            }),
    {
        let mut job = self;
        job.chapters = chapters;
        job
    }

    pub fn metadata(self, key: &str, value: &str) -> (r: Self)
        ensures
            r.deep_view() == (TranscodeJobModel {
                metadata: self.deep_view().metadata.push((key@, value@)),
                ..self.deep_view()
            }),
    {
        let mut job = self;
        list::push(&mut job.metadata, (key.to_owned(), value.to_owned()));
        job
    }
}

} // verus!
