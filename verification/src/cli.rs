//! The command line: what each command is asked to do.
use vstd::prelude::*;

use crate::config::{Config, DistributedConfig, LanguageConfig, TranscodeConfig};
use crate::transcode::config::{
    AudioAction, AudioConfig, ContainerFormat, SubtitleConfig, VideoCodec, VideoConfig,
};
use crate::transcode::TranscodeJob;
use crate::{config, list, text, transcode};

verus! {

/// The command line.
#[derive(Debug)]
pub struct Cli {
    pub command: Commands,
}

#[derive(Debug)]
pub enum Commands {
    /// Print information about a Blu-Ray disc
    DiscInfo { bd_path: String },
    /// List titles available on a Blu-Ray disc
    ListTitles { bd_path: String },
    /// Read a raw Blu-Ray title to a file
    ReadTitle { title: u32, out_path: String, bd_path: String },
    /// Transcode an input file to MKV or MP4
    Transcode(TranscodeArgs),
    /// Manage configuration
    Config(ConfigAction),
    /// Rip a disc interactively
    Rip { config: Option<String>, overrides: RipOverrides },
    /// Create distributed transcoding jobs from a disc
    CreateJobs { config: Option<String>, bd_path: Option<String> },
    /// Run as a distributed transcoding worker
    Worker { config: Option<String> },
    /// Manage distributed transcoding jobs
    Jobs(JobsAction),
}

#[derive(Debug)]
pub enum ConfigAction {
    /// Interactively create a config file
    Init { config: Option<String> },
    /// Show the current configuration
    Show { config: Option<String> },
}

#[derive(Debug)]
pub enum JobsAction {
    /// List all jobs and their status
    List { config: Option<String> },
    /// Retry all failed jobs
    Retry { config: Option<String> },
    /// Clean up completed jobs
    Clean { config: Option<String> },
    /// Recover jobs with stale heartbeats
    RecoverStale { config: Option<String> },
}

impl Commands {
    /// The configuration file that a command is run with: none where it runs
    /// without, an empty path where the usual one is meant.
    pub open spec fn config_file(self) -> Option<Option<Seq<char>>> {
        match self {
            Commands::Config(ConfigAction::Show { config }) => Some(config.deep_view()),
            Commands::Rip { config, .. } => Some(config.deep_view()),
            Commands::CreateJobs { config, .. } => Some(config.deep_view()),
            Commands::Worker { config } => Some(config.deep_view()),
            Commands::Jobs(JobsAction::List { config }) => Some(config.deep_view()),
            Commands::Jobs(JobsAction::Retry { config }) => Some(config.deep_view()),
            Commands::Jobs(JobsAction::Clean { config }) => Some(config.deep_view()),
            Commands::Jobs(JobsAction::RecoverStale { config }) => Some(config.deep_view()),
            _ => None,
        }
    }

    /// The configuration file that a command is run with.
    pub fn config_path(&self) -> (r: Option<Option<String>>)
        ensures
            r.deep_view() == self.config_file(),
    {
        match self {
            Commands::Config(ConfigAction::Show { config }) => Some(text::copy_opt(config)),
            Commands::Rip { config, .. } => Some(text::copy_opt(config)),
            Commands::CreateJobs { config, .. } => Some(text::copy_opt(config)),
            Commands::Worker { config } => Some(text::copy_opt(config)),
            Commands::Jobs(JobsAction::List { config }) => Some(text::copy_opt(config)),
            Commands::Jobs(JobsAction::Retry { config }) => Some(text::copy_opt(config)),
            Commands::Jobs(JobsAction::Clean { config }) => Some(text::copy_opt(config)),
            Commands::Jobs(JobsAction::RecoverStale { config }) => Some(text::copy_opt(config)),
            _ => None,
        }
    }

    /// The configuration that a command works with: ripping sets what it is told
    /// to, creating jobs the disc's path, and every other command nothing.
    pub open spec fn settled(self, c: config::ConfigModel) -> config::ConfigModel {
        match self {
            Commands::Rip { overrides, .. } => under_overrides(c, overrides),
            Commands::CreateJobs { bd_path, .. } => config::ConfigModel {
                bd_path: overridden(bd_path, c.bd_path),
                ..c
            },
            _ => c,
        }
    }

    /// The configuration that a command works with.
    pub fn effective_config(&self, config: Config) -> (r: Config)
        ensures
            r.deep_view() == self.settled(config.deep_view()),
    {
        match self {
            Commands::Rip { overrides, .. } => apply_overrides(config, overrides),
            Commands::CreateJobs { bd_path, .. } => {
                let mut cfg = config;
                if let Some(p) = bd_path {
                    cfg.bd_path = p.clone();
                }
                cfg
            },
            _ => config,
        }
    }
}

// --- transcode ---

/// What the transcode command is given.
#[derive(Debug)]
pub struct TranscodeArgs {
    /// Input file (e.g. output.m2ts from read-title)
    pub input: String,
    /// Output file (.mkv or .mp4)
    pub output: String,
    /// Video codec: copy, h264, h265, av1
    pub video_codec: String,
    /// CRF value for video encoding (e.g. 20)
    pub crf: Option<u32>,
    /// Encoder preset (e.g. slow, medium, fast)
    pub preset: Option<String>,
    /// Audio stream indices to copy
    pub audio_copy: Vec<usize>,
    /// Audio stream indices to encode as AAC
    pub audio_aac: Vec<usize>,
    /// Subtitle stream indices to copy
    pub subtitles: Vec<usize>,
}

/// Does a text end with another?
pub open spec fn ends_with(s: Seq<char>, end: Seq<char>) -> bool {
    s.len() >= end.len() && s.skip(s.len() - end.len()) == end
}

/// The container that an output path asks for.
pub open spec fn container_of(output: Seq<char>) -> ContainerFormat {
    if ends_with(output, ".mp4"@) {
        ContainerFormat::Mp4
    } else {
        ContainerFormat::Mkv
    }
}

/// The container that an output path asks for.
pub fn container_for(output: &str) -> (r: ContainerFormat)
    ensures
        r == container_of(output@),
{
    let chars = text::chars_of(output);
    let end = text::chars_of(".mp4");
    if chars.len() >= end.len() {
        let from: usize = chars.len() - end.len();
        assert(chars@.subrange(from as int, chars@.len() as int) =~= chars@.skip(from as int));
        let tail = text::text_of_range(&chars, from, chars.len());
        if text::same_text(tail.as_str(), ".mp4") {
            return ContainerFormat::Mp4;
        }
    }
    ContainerFormat::Mkv
}

/// Audio tracks without language or name, one for each stream.
pub open spec fn bare_audio(
    streams: Seq<usize>,
    action: transcode::config::AudioActionModel,
) -> Seq<transcode::config::AudioConfigModel> {
    Seq::new(
        streams.len(),
        |i: int|
            transcode::config::AudioConfigModel {
                source_stream: streams[i],
                language: None,
                name: None,
                action,
            },
    )
}

/// Subtitle tracks without language or name, one for each stream.
pub open spec fn bare_subtitles(streams: Seq<usize>) -> Seq<
    transcode::config::SubtitleConfigModel,
> {
    Seq::new(
        streams.len(),
        |i: int|
            transcode::config::SubtitleConfigModel {
                source_stream: streams[i],
                language: None,
                name: None,
                forced: false,
            },
    )
}

/// What the transcode command does: first the copied audio streams, then the
/// encoded ones, then the subtitles.
pub open spec fn asked_job(args: TranscodeArgs) -> transcode::TranscodeJobModel {
    transcode::TranscodeJobModel {
        container: container_of(args.output@),
        video: transcode::config::VideoConfigModel::asked(
            VideoCodec::named(args.video_codec@),
            args.crf,
            args.preset.deep_view(),
        ),
        audio_tracks: bare_audio(
            args.audio_copy@,
            transcode::config::AudioActionModel::Copy,
        ) + bare_audio(args.audio_aac@, transcode::config::AudioActionModel::aac(None)),
        subtitle_tracks: bare_subtitles(args.subtitles@),
        ..transcode::TranscodeJobModel::fresh(args.input@, args.output@)
    }
}

/// What the transcode command does.
pub fn transcode_job(args: &TranscodeArgs) -> (r: TranscodeJob)
    ensures
        r.deep_view() == asked_job(*args),
{
    let video = VideoConfig {
        codec: VideoCodec::from_name(args.video_codec.as_str()),
        crf: args.crf,
        preset: text::copy_opt(&args.preset),
        extra_options: list::empty(),
        source_stream: None,
    };
    let mut job = TranscodeJob::new(args.input.as_str(), args.output.as_str()).container(
        container_for(args.output.as_str()),
    ).video(video);
    let ghost base = job.deep_view();
    let ghost copied = bare_audio(args.audio_copy@, transcode::config::AudioActionModel::Copy);
    let mut i: usize = 0;
    assert(base.audio_tracks =~= copied.take(0));
    while i < args.audio_copy.len()
        invariant
            i <= args.audio_copy.len(),
            copied == bare_audio(args.audio_copy@, transcode::config::AudioActionModel::Copy),
            job.deep_view() == (transcode::TranscodeJobModel {
                audio_tracks: copied.take(i as int),
                ..base
            }),
        decreases args.audio_copy.len() - i,
    {
        job =
        job.add_audio(
            AudioConfig {
                source_stream: args.audio_copy[i],
                language: None,
                name: None,
                action: AudioAction::Copy,
            },
        );
        assert(job.deep_view().audio_tracks =~= copied.take(i + 1));
        i = i + 1;
    }
    assert(copied.take(i as int) =~= copied);

    let ghost encoded = bare_audio(
        args.audio_aac@,
        transcode::config::AudioActionModel::aac(None),
    );
    let mut j: usize = 0;
    assert(job.deep_view().audio_tracks =~= copied + encoded.take(0));
    while j < args.audio_aac.len()
        invariant
            j <= args.audio_aac.len(),
            encoded == bare_audio(
                args.audio_aac@,
                transcode::config::AudioActionModel::aac(None),
            ),
            job.deep_view() == (transcode::TranscodeJobModel {
                audio_tracks: copied + encoded.take(j as int),
                ..base
            }),
        decreases args.audio_aac.len() - j,
    {
        job =
        job.add_audio(
            AudioConfig {
                source_stream: args.audio_aac[j],
                language: None,
                name: None,
                action: AudioAction::encode_aac(None),
            },
        );
        assert(job.deep_view().audio_tracks =~= copied + encoded.take(j + 1));
        j = j + 1;
    }
    assert(encoded.take(j as int) =~= encoded);

    let ghost subs = bare_subtitles(args.subtitles@);
    let mut k: usize = 0;
    assert(job.deep_view().subtitle_tracks =~= subs.take(0));
    while k < args.subtitles.len()
        invariant
            k <= args.subtitles.len(),
            subs == bare_subtitles(args.subtitles@),
            job.deep_view() == (transcode::TranscodeJobModel {
                audio_tracks: copied + encoded,
                subtitle_tracks: subs.take(k as int),
                ..base
            }),
        decreases args.subtitles.len() - k,
    {
        job =
        job.add_subtitle(
            SubtitleConfig {
                source_stream: args.subtitles[k],
                language: None,
                name: None,
                forced: false,
            },
        );
        assert(job.deep_view().subtitle_tracks =~= subs.take(k + 1));
        k = k + 1;
    }
    assert(subs.take(k as int) =~= subs);
    job
}

// --- rip ---

/// What the rip command sets over the configuration.
#[derive(Debug)]
pub struct RipOverrides {
    pub bd_path: Option<String>,
    pub video_codec: Option<String>,
    pub crf: Option<u32>,
    pub preset: Option<String>,
    pub no_eject: bool,
}

/// The first of two values that is there.
pub open spec fn either<T>(over: Option<T>, under: Option<T>) -> Option<T> {
    match over {
        Some(v) => Some(v),
        None => under,
    }
}

/// A text, unless it is overridden.
pub open spec fn overridden(over: Option<String>, under: Seq<char>) -> Seq<char> {
    match over {
        Some(v) => v@,
        None => under,
    }
}

/// The configuration under some overrides.
pub open spec fn under_overrides(
    c: config::ConfigModel,
    over: RipOverrides,
) -> config::ConfigModel {
    config::ConfigModel {
        bd_path: overridden(over.bd_path, c.bd_path),
        eject_on_complete: c.eject_on_complete && !over.no_eject,
        transcode: config::TranscodeConfigModel {
            video_codec: overridden(over.video_codec, c.transcode.video_codec),
            crf: either(over.crf, c.transcode.crf),
            preset: either(over.preset.deep_view(), c.transcode.preset),
            ..c.transcode
        },
        ..c
    }
}

/// The configuration under some overrides.
pub fn apply_overrides(config: Config, over: &RipOverrides) -> (r: Config)
    ensures
        r.deep_view() == under_overrides(config.deep_view(), *over),
{
    let mut cfg = config;
    if let Some(p) = &over.bd_path {
        cfg.bd_path = p.clone();
    }
    if let Some(vc) = &over.video_codec {
        cfg.transcode.video_codec = vc.clone();
    }
    if let Some(c) = over.crf {
        cfg.transcode.crf = Some(c);
    }
    if let Some(p) = &over.preset {
        cfg.transcode.preset = Some(p.clone());
    }
    if over.no_eject {
        cfg.eject_on_complete = false;
    }
    cfg
}

/// A configuration under no overrides is itself, and overriding twice in the same
/// way is overriding once.
pub proof fn overriding_is_idempotent(c: config::ConfigModel, over: RipOverrides)
    ensures
        under_overrides(under_overrides(c, over), over) == under_overrides(c, over),
        over.bd_path is None && over.video_codec is None && over.crf is None && over.preset is None
            && !over.no_eject ==> under_overrides(c, over) == c,
{
}

// --- config init ---

/// Where a new configuration is written: where it was asked for, else at the
/// usual place.
pub fn init_path(path: Option<&str>, default_path: Option<String>) -> (r: Result<String, String>)
    ensures
        match r {
            Ok(chosen) => match path {
                Some(path) => chosen@ == path@,
                None => default_path == Some(chosen),
            },
            Err(message) => path is None && default_path is None && message@
                == "Could not determine config path"@,
        },
{
    match Config::chosen_path(path, default_path) {
        Some(chosen) => Ok(chosen),
        None => Err("Could not determine config path".to_owned()),
    }
}

/// The question before an existing configuration is overwritten.
pub fn overwrite_prompt(path: &str) -> (r: String)
    ensures
        r@ == "Config already exists at "@ + path@ + ". Overwrite?"@,
{
    let mut prompt = "Config already exists at ".to_owned();
    prompt.append(path);
    prompt.append(". Overwrite?");
    prompt
}

/// What the user answers when a configuration is made.
#[derive(Debug)]
pub struct InitAnswers {
    pub movie_dir: String,
    pub show_dir: String,
    pub tmdb_token: String,
    pub bd_path: String,
    pub video_codec: String,
    pub crf: String,
    pub preset: String,
    pub audio_langs: String,
    pub subtitle_langs: String,
    pub player_language: String,
}

/// An answer, none where it is empty.
pub open spec fn filled(answer: Seq<char>) -> Option<Seq<char>> {
    if answer.len() == 0 {
        None
    } else {
        Some(answer)
    }
}

fn unless_empty(answer: &String) -> (r: Option<String>)
    ensures
        r.deep_view() == filled(answer@),
{
    if text::chars_of(answer.as_str()).len() == 0 {
        None
    } else {
        Some(answer.clone())
    }
}

/// The items of a list without white space round them, empty ones left out.
pub open spec fn kept_items(pieces: Seq<Seq<char>>) -> Seq<Seq<char>>
    decreases pieces.len(),
{
    if pieces.len() == 0 {
        Seq::empty()
    } else {
        let before = kept_items(pieces.drop_last());
        let item = text::trim(pieces.last());
        if item.len() == 0 {
            before
        } else {
            before.push(item)
        }
    }
}

/// The items of a list with commas between them.
pub open spec fn comma_items(s: Seq<char>) -> Seq<Seq<char>> {
    kept_items(text::split_on(s, ','))
}

/// The items of a list with commas between them.
pub fn parse_comma_list(s: &str) -> (r: Vec<String>)
    ensures
        r.deep_view() == comma_items(s@),
{
    let pieces = text::split_text(s, ',');
    let ghost all = pieces.deep_view();
    let mut items: Vec<String> = list::empty();
    let mut i: usize = 0;
    assert(all.take(0) =~= Seq::empty());
    while i < pieces.len()
        invariant
            i <= pieces.len(),
            all == pieces.deep_view(),
            items.deep_view() == kept_items(all.take(i as int)),
        decreases pieces.len() - i,
    {
        assert(all.take(i + 1).drop_last() =~= all.take(i as int));
        assert(all.take(i + 1).last() == pieces[i as int]@);
        let item = text::trimmed(&text::chars_of(pieces[i].as_str()));
        if item.len() > 0 {
            let whole = text::text_of_range(&item, 0, item.len());
            assert(item@.subrange(0, item@.len() as int) =~= item@);
            list::push(&mut items, whole);
        }
        i = i + 1;
    }
    assert(all.take(i as int) =~= all);
    items
}

/// No item of a list is empty.
pub proof fn comma_items_are_not_empty(s: Seq<char>, i: int)
    requires
        0 <= i < comma_items(s).len(),
    ensures
        comma_items(s)[i].len() > 0,
{
    lemma_kept_items(text::split_on(s, ','), i);
}

proof fn lemma_kept_items(pieces: Seq<Seq<char>>, i: int)
    requires
        0 <= i < kept_items(pieces).len(),
    ensures
        kept_items(pieces)[i].len() > 0,
    decreases pieces.len(),
{
    if i < kept_items(pieces.drop_last()).len() {
        lemma_kept_items(pieces.drop_last(), i);
    }
}

/// A quality value, none where it is not a number.
pub open spec fn quality_of(answer: Seq<char>) -> Option<u32> {
    match text::parse_number(answer, u32::MAX as nat) {
        Some(n) => Some(n as u32),
        None => None,
    }
}

/// The configuration that the answers make.
pub open spec fn answered_config(
    answers: InitAnswers,
    worker_name: Seq<char>,
) -> config::ConfigModel {
    config::ConfigModel {
        movie_dir: filled(answers.movie_dir@),
        show_dir: filled(answers.show_dir@),
        tmdb_token: filled(answers.tmdb_token@),
        bd_path: answers.bd_path@,
        temp_dir: "/var/tmp"@,
        eject_on_complete: false,
        transcode: config::TranscodeConfigModel {
            video_codec: answers.video_codec@,
            crf: quality_of(answers.crf@),
            preset: Some(answers.preset@),
            audio_bitrate: None,
        },
        languages: config::LanguageConfigModel {
            audio: comma_items(answers.audio_langs@),
            subtitle: comma_items(answers.subtitle_langs@),
            player_language: answers.player_language@,
        },
        distributed: config::default_distributed(worker_name),
    }
}

/// The configuration that the answers make.
pub fn config_from_answers(answers: &InitAnswers, worker_name: String) -> (r: Config)
    ensures
        r.deep_view() == answered_config(*answers, worker_name@),
{
    let crf: Option<u32> = match text::parse_number_text(answers.crf.as_str(), u32::MAX as u64) {
        Some(n) => Some(n as u32),
        None => None,
    };
    Config {
        movie_dir: unless_empty(&answers.movie_dir),
        show_dir: unless_empty(&answers.show_dir),
        tmdb_token: unless_empty(&answers.tmdb_token),
        bd_path: answers.bd_path.clone(),
        temp_dir: "/var/tmp".to_owned(),
        eject_on_complete: false,
        transcode: TranscodeConfig {
            video_codec: answers.video_codec.clone(),
            crf,
            preset: Some(answers.preset.clone()),
            audio_bitrate: None,
        },
        languages: LanguageConfig {
            audio: parse_comma_list(answers.audio_langs.as_str()),
            subtitle: parse_comma_list(answers.subtitle_langs.as_str()),
            player_language: answers.player_language.clone(),
        },
        distributed: DistributedConfig::default_for(worker_name),
    }
}

/// What a command gives takes the place of what is configured, setting by setting;
/// everything else stays. Ejecting can be switched off only.
pub proof fn given_settings_win(c: config::ConfigModel, over: RipOverrides)
    ensures
        ({
            let r = under_overrides(c, over);
            &&& over.bd_path matches Some(v) ==> r.bd_path == v@
            &&& over.bd_path is None ==> r.bd_path == c.bd_path
            &&& over.video_codec matches Some(v) ==> r.transcode.video_codec == v@
            &&& over.video_codec is None ==> r.transcode.video_codec == c.transcode.video_codec
            &&& over.crf is Some ==> r.transcode.crf == over.crf
            &&& over.crf is None ==> r.transcode.crf == c.transcode.crf
            &&& over.preset matches Some(v) ==> r.transcode.preset == Some(v@)
            &&& over.preset is None ==> r.transcode.preset == c.transcode.preset
            &&& r.transcode.audio_bitrate == c.transcode.audio_bitrate
            &&& over.no_eject ==> !r.eject_on_complete
            &&& !over.no_eject ==> r.eject_on_complete == c.eject_on_complete
            &&& r.movie_dir == c.movie_dir
            &&& r.show_dir == c.show_dir
            &&& r.tmdb_token == c.tmdb_token
            &&& r.temp_dir == c.temp_dir
            &&& r.languages == c.languages
            &&& r.distributed == c.distributed
        }),
{
}

/// Each command is run with the configuration file that it names and with its own
/// settings on top; what takes none is run without.
pub proof fn commands_bring_their_configuration(
    file: Option<String>,
    drive: Option<String>,
    over: RipOverrides,
    c: config::ConfigModel,
)
    ensures
        Commands::Config(ConfigAction::Show { config: file }).config_file() == Some(
            file.deep_view(),
        ),
        (Commands::Rip { config: file, overrides: over }).config_file() == Some(file.deep_view()),
        (Commands::CreateJobs { config: file, bd_path: drive }).config_file() == Some(
            file.deep_view(),
        ),
        (Commands::Worker { config: file }).config_file() == Some(file.deep_view()),
        Commands::Jobs(JobsAction::List { config: file }).config_file() == Some(file.deep_view()),
        Commands::Jobs(JobsAction::Retry { config: file }).config_file() == Some(file.deep_view()),
        Commands::Jobs(JobsAction::Clean { config: file }).config_file() == Some(file.deep_view()),
        Commands::Jobs(JobsAction::RecoverStale { config: file }).config_file() == Some(
            file.deep_view(),
        ),
        (Commands::Rip { config: file, overrides: over }).settled(c) == under_overrides(c, over),
        ({
            let r = (Commands::CreateJobs { config: file, bd_path: drive }).settled(c);
            &&& drive matches Some(v) ==> r.bd_path == v@
            &&& drive is None ==> r == c
            &&& r == config::ConfigModel { bd_path: r.bd_path, ..c }
        }),
        (Commands::Worker { config: file }).settled(c) == c,
{
}

/// A file whose name ends in `.mp4` becomes an MP4 file, any other a Matroska file.
pub proof fn containers_follow_the_file_name(stem: Seq<char>, other: Seq<char>)
    ensures
        container_of(stem + ".mp4"@) is Mp4,
        container_of(stem + ".mkv"@) is Mkv,
        (forall|s: Seq<char>| other != #[trigger] (s + ".mp4"@)) ==> container_of(other) is Mkv,
{
    reveal_strlit(".mp4");
    reveal_strlit(".mkv");
    let a = stem + ".mp4"@;
    assert(a.skip(a.len() - 4) =~= ".mp4"@);
    let b = stem + ".mkv"@;
    assert(b.skip(b.len() - 4)[2] == 'k');
    assert(".mp4"@[2] == 'p');
    if ends_with(other, ".mp4"@) {
        let s = other.take(other.len() - 4);
        assert(other =~= s + ".mp4"@);
    }
}

/// A job from the command line copies the one list of audio streams and encodes the
/// other to AAC, in that order, and takes the subtitle streams; nothing is known of
/// their languages. The rest is as asked.
pub proof fn asked_jobs_do_what_was_asked(args: TranscodeArgs, i: int)
    ensures
        ({
            let job = asked_job(args);
            let copied = args.audio_copy.len();
            &&& job.input_path == args.input@
            &&& job.output_path == args.output@
            &&& job.video.crf == args.crf
            &&& job.video.preset == args.preset.deep_view()
            &&& job.video.codec is H264 <==> args.video_codec@ == "h264"@
            &&& job.video.codec is H265 <==> args.video_codec@ == "h265"@
            &&& job.video.codec is Av1 <==> args.video_codec@ == "av1"@
            &&& job.video.source_stream is None
            &&& job.chapters.len() == 0
            &&& job.metadata.len() == 0
            &&& job.audio_tracks.len() == copied + args.audio_aac.len()
            &&& 0 <= i < copied ==> job.audio_tracks[i].source_stream == args.audio_copy[i]
                && job.audio_tracks[i].action is Copy
            &&& 0 <= i < args.audio_aac.len() ==> job.audio_tracks[copied + i].source_stream
                == args.audio_aac[i] && (job.audio_tracks[copied + i].action
                matches transcode::config::AudioActionModel::Encode {
                codec_name,
                bitrate,
                extra_options,
            } && codec_name == "aac"@ && bitrate is None && extra_options.len() == 0)
            &&& 0 <= i < job.audio_tracks.len() ==> job.audio_tracks[i].language is None
                && job.audio_tracks[i].name is None
            &&& job.subtitle_tracks.len() == args.subtitles.len()
            &&& 0 <= i < args.subtitles.len() ==> job.subtitle_tracks[i].source_stream
                == args.subtitles[i] && job.subtitle_tracks[i].language is None
                && job.subtitle_tracks[i].name is None && !job.subtitle_tracks[i].forced
        }),
{
    transcode::config::codecs_are_named(args.video_codec@);
}

/// The items of a list are those before a comma, then those behind it; a stretch
/// without a comma is an item without the white space around it, or none where there
/// is nothing else.
pub proof fn commas_separate_items(a: Seq<char>, b: Seq<char>)
    ensures
        comma_items(a.push(',') + b) == comma_items(a) + comma_items(b),
        !a.contains(',') && text::trim(a).len() > 0 ==> comma_items(a) == seq![text::trim(a)],
        !a.contains(',') && text::trim(a).len() == 0 ==> comma_items(a).len() == 0,
{
    text::splitting_cuts_at_separators(a, ',', b);
    lemma_kept_items_add_up(text::split_on(a, ','), text::split_on(b, ','));
    if !a.contains(',') {
        assert(seq![a].drop_last() =~= Seq::empty());
        assert(kept_items(Seq::empty()) =~= Seq::empty());
        assert(Seq::<Seq<char>>::empty().push(text::trim(a)) =~= seq![text::trim(a)]);
    }
}

proof fn lemma_kept_items_add_up(a: Seq<Seq<char>>, b: Seq<Seq<char>>)
    ensures
        kept_items(a + b) == kept_items(a) + kept_items(b),
    decreases b.len(),
{
    if b.len() == 0 {
        assert(a + b =~= a);
        assert(kept_items(a) + kept_items(b) =~= kept_items(a));
    } else {
        lemma_kept_items_add_up(a, b.drop_last());
        assert((a + b).drop_last() =~= a + b.drop_last());
        assert((a + b).last() == b.last());
        assert(kept_items(a + b) =~= kept_items(a) + kept_items(b));
    }
}

/// The answers to the questions become the configuration: an empty directory or token
/// means none, a quality that is no number too, and what is not asked for has its
/// usual value.
pub proof fn answers_become_the_configuration(answers: InitAnswers, name: Seq<char>, crf: u32)
    ensures
        ({
            let c = answered_config(answers, name);
            &&& c.movie_dir == if answers.movie_dir@.len() == 0 {
                None
            } else {
                Some(answers.movie_dir@)
            }
            &&& c.show_dir == if answers.show_dir@.len() == 0 {
                None
            } else {
                Some(answers.show_dir@)
            }
            &&& c.tmdb_token == if answers.tmdb_token@.len() == 0 {
                None
            } else {
                Some(answers.tmdb_token@)
            }
            &&& c.bd_path == answers.bd_path@
            &&& c.temp_dir == "/var/tmp"@
            &&& !c.eject_on_complete
            &&& c.transcode.video_codec == answers.video_codec@
            &&& c.transcode.preset == Some(answers.preset@)
            &&& c.transcode.audio_bitrate is None
            &&& answers.crf@ == text::decimal(crf as nat) ==> c.transcode.crf == Some(crf)
            &&& answers.crf@.len() == 0 ==> c.transcode.crf is None
            &&& c.languages.audio == comma_items(answers.audio_langs@)
            &&& c.languages.subtitle == comma_items(answers.subtitle_langs@)
            &&& c.languages.player_language == answers.player_language@
            &&& c.distributed.worker_name == name
            &&& c.distributed.shared_dir is None
            &&& c.distributed.poll_interval_secs == 30
            &&& c.distributed.max_concurrent_jobs == 1
            &&& c.distributed.stale_lock_timeout_secs == 3600
            &&& c.distributed.max_retries == 3
            &&& c.distributed.cleanup_raw_media
        }),
{
    text::numbers_are_read_from_their_numerals(crf as nat, u32::MAX as nat, answers.crf@, 0);
}

} // verus!
