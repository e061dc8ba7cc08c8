//! Making jobs from a disc.
use vstd::prelude::*;

use super::clock::Timestamp;
use super::fs_ops::SharedDirs;
use super::job::{ContentType, DistributedJob};
use super::{clock, job};
use crate::config::Config;
use crate::rip::analysis::TitleAnalysis;
use crate::rip::tui::{MovieChoice, ShowChoice};
use crate::rip::{jellyfin, tui, StreamConfigs};
use crate::transcode::config::{ContainerFormat, VideoCodec, VideoConfig};
use crate::{config, list, rip, text, transcode};

verus! {

/// A new job's identifier, and the media file that belongs to it.
#[derive(Debug)]
pub struct MediaTarget {
    pub id: u128,
    pub media_file: String,
    pub media_path: String,
}

impl MediaTarget {
    /// The names follow from the identifier.
    pub open spec fn well_formed(self, dirs: SharedDirs) -> bool {
        &&& self.media_file@ == job::id_form(self.id) + ".m2ts"@
        &&& self.media_path@ == text::joined(dirs.media@, self.media_file@)
    }

    /// The media file that belongs to an identifier.
    pub fn for_id(dirs: &SharedDirs, id: u128) -> (r: Self)
        ensures
            r.id == id,
            r.well_formed(*dirs),
    {
        let mut media_file = job::id_text(id);
        media_file.append(".m2ts");
        let media_path = text::join_path(dirs.media.as_str(), media_file.as_str());
        MediaTarget { id, media_file, media_path }
    }

    /// A new random identifier with its media file.
    pub fn fresh(dirs: &SharedDirs) -> (r: Self)
        ensures
            r.well_formed(*dirs),
            job::is_random_id(r.id),
    {
        let id: u128 = job::new_id();
        MediaTarget::for_id(dirs, id)
    }
}

/// Media files of different jobs never share a name.
pub proof fn media_files_are_distinct(dirs: SharedDirs, a: MediaTarget, b: MediaTarget)
    requires
        a.well_formed(dirs),
        b.well_formed(dirs),
        a.media_file@ == b.media_file@,
    ensures
        a.id == b.id,
{
    job::id_digits_are_complete(a.id);
    job::id_digits_are_complete(b.id);
    assert(a.media_file@.take(36) =~= job::id_form(a.id));
    assert(b.media_file@.take(36) =~= job::id_form(b.id));
    job::ids_look_distinct(a.id, b.id);
}

/// The video settings of a configuration.
pub open spec fn asked_video(c: config::TranscodeConfigModel) -> transcode::config::VideoConfigModel {
    transcode::config::VideoConfigModel::asked(VideoCodec::named(c.video_codec), c.crf, c.preset)
}

/// A new job: everything but what kind of content it is, where it goes, and the
/// metadata.
pub open spec fn bare_job(
    target: MediaTarget,
    streams: StreamConfigs,
    c: config::ConfigModel,
    created_at: Timestamp,
) -> job::DistributedJobModel {
    job::DistributedJobModel {
        id: target.id,
        version: 1,
        media_file: target.media_file@,
        disc_volume_id: None,
        content_type: ContentType::Movie,
        relative_output_path: Seq::empty(),
        container: ContainerFormat::Mkv,
        video: asked_video(c.transcode),
        audio_tracks: streams.audio_tracks.deep_view(),
        subtitle_tracks: streams.subtitle_tracks.deep_view(),
        chapters: streams.chapters.deep_view(),
        metadata: Seq::empty(),
        attempt: 0,
        max_retries: c.distributed.max_retries,
        created_at,
        error_message: None,
    }
}

fn make_bare_job(
    target: MediaTarget,
    streams: StreamConfigs,
    config: &Config,
    created_at: Timestamp,
) -> (r: DistributedJob)
    ensures
        r.deep_view() == bare_job(target, streams, config.deep_view(), created_at),
{
    let relative_output_path = String::new();
    assert(relative_output_path@ =~= Seq::empty());
    DistributedJob {
        id: target.id,
        version: 1,
        media_file: target.media_file,
        disc_volume_id: None,
        content_type: ContentType::Movie,
        relative_output_path,
        container: ContainerFormat::Mkv,
        video: VideoConfig::from_transcode_config(&config.transcode),
        audio_tracks: streams.audio_tracks,
        subtitle_tracks: streams.subtitle_tracks,
        chapters: streams.chapters,
        metadata: list::empty(),
        attempt: 0,
        max_retries: config.distributed.max_retries,
        created_at,
        error_message: None,
    }
}

/// The title of a chosen movie, or a complaint where it is not there.
pub fn movie_title(found: &TitleAnalysis, choice: &MovieChoice) -> (r: Result<usize, String>)
    ensures
        match r {
            Ok(place) => place < found.titles.len() && place == tui::title_place(
                found.titles.deep_view(),
                choice.title_idx,
            ),
            Err(message) => tui::title_place(found.titles.deep_view(), choice.title_idx)
                == found.titles.len() && message@ == "Selected title not found"@,
        },
{
    match tui::find_title(&found.titles, choice.title_idx) {
        Some(place) => Ok(place),
        None => Err("Selected title not found".to_owned()),
    }
}

/// The job for a movie.
pub open spec fn movie_job(
    target: MediaTarget,
    streams: StreamConfigs,
    choice: tui::MovieChoiceModel,
    c: config::ConfigModel,
    created_at: Timestamp,
) -> Result<job::DistributedJobModel, Seq<char>> {
    match c.movie_dir {
        Some(_) => Ok(
            job::DistributedJobModel {
                content_type: ContentType::Movie,
                relative_output_path: jellyfin::movie_file(
                    choice.tmdb.title,
                    choice.tmdb.year,
                    choice.tmdb.id,
                ),
                metadata: seq![("title"@, choice.tmdb.title)],
                ..bare_job(target, streams, c, created_at)
            },
        ),
        None => Err("movie_dir not configured"@),
    }
}

/// The job for a movie, created at some time. Its path is relative to the movie
/// directory, which every machine has at a place of its own.
pub fn movie_job_at(
    target: MediaTarget,
    streams: StreamConfigs,
    choice: &MovieChoice,
    config: &Config,
    created_at: Timestamp,
) -> (r: Result<DistributedJob, String>)
    ensures
        match r {
            Ok(job) => movie_job(
                target,
                streams,
                choice.deep_view(),
                config.deep_view(),
                created_at,
            ) == Ok::<job::DistributedJobModel, Seq<char>>(job.deep_view()),
            Err(message) => movie_job(
                target,
                streams,
                choice.deep_view(),
                config.deep_view(),
                created_at,
            ) == Err::<job::DistributedJobModel, Seq<char>>(message@),
        },
{
    if config.movie_dir.is_none() {
        return Err("movie_dir not configured".to_owned());
    }
    let mut made = make_bare_job(target, streams, config, created_at);
    made.relative_output_path =
    jellyfin::relative_movie_path(
        choice.tmdb.title.as_str(),
        choice.tmdb.year,
        choice.tmdb.id,
    );
    made.metadata = list::single(("title".to_owned(), choice.tmdb.title.clone()));
    Ok(made)
}

/// The job for a movie, created now.
pub fn create_movie_job(
    target: MediaTarget,
    streams: StreamConfigs,
    choice: &MovieChoice,
    config: &Config,
) -> (r: Result<DistributedJob, String>)
    ensures
        match r {
            Ok(job) => job.created_at.valid() && job.created_at.ordinary() && job.created_at.secs
                >= 0 && movie_job(
                target,
                streams,
                choice.deep_view(),
                config.deep_view(),
                job.created_at,
            ) == Ok::<job::DistributedJobModel, Seq<char>>(job.deep_view()),
            Err(message) => config.movie_dir is None && message@ == "movie_dir not configured"@,
        },
{
    movie_job_at(target, streams, choice, config, clock::now())
}

/// One step of making the jobs of a show; `index` counts the chosen titles.
#[derive(Debug, Clone, Copy, PartialEq, Eq, Structural)]
pub enum ShowJobStep {
    Read { index: usize },
    Create { index: usize },
}

/// ALL titles are read first, then the jobs are created (enables parallel worker
/// pickup).
pub open spec fn show_job_steps(titles: nat) -> Seq<ShowJobStep> {
    Seq::new(titles, |i: int| ShowJobStep::Read { index: i as usize }) + Seq::new(
        titles,
        |i: int| ShowJobStep::Create { index: i as usize },
    )
}

/// The steps of making the jobs of a show, or a complaint where no show directory
/// is configured.
pub fn plan_show_jobs(choice: &ShowChoice, config: &Config) -> (r: Result<Vec<ShowJobStep>, String>)
    ensures
        match r {
            Ok(steps) => config.show_dir is Some && steps@ == show_job_steps(
                choice.title_indices@.len(),
            ),
            Err(message) => config.show_dir is None && message@ == "show_dir not configured"@,
        },
{
    if config.show_dir.is_none() {
        return Err("show_dir not configured".to_owned());
    }
    let n: usize = choice.title_indices.len();
    let ghost all = show_job_steps(n as nat);
    let mut steps: Vec<ShowJobStep> = Vec::new();
    let mut i: usize = 0;
    while i < n
        invariant
            i <= n,
            all == show_job_steps(n as nat),
            steps@ == all.take(i as int),
        decreases n - i,
    {
        steps.push(ShowJobStep::Read { index: i });
        assert(steps@ =~= all.take(i + 1));
        i = i + 1;
    }
    let mut j: usize = 0;
    while j < n
        invariant
            j <= n,
            all == show_job_steps(n as nat),
            steps@ == all.take(n + j),
        decreases n - j,
    {
        steps.push(ShowJobStep::Create { index: j });
        assert(steps@ =~= all.take(n + j + 1));
        j = j + 1;
    }
    assert(all.take(n + n) =~= all);
    Ok(steps)
}

/// No job of a show is created before all its titles have been read.
pub proof fn titles_are_read_before_jobs(titles: nat, i: int, j: int)
    requires
        0 <= i < show_job_steps(titles).len(),
        0 <= j < show_job_steps(titles).len(),
        show_job_steps(titles)[i] is Read,
        show_job_steps(titles)[j] is Create,
    ensures
        i < j,
{
}

/// The title of a chosen episode, or a complaint where it is not there.
pub fn episode_title(found: &TitleAnalysis, title_idx: u32) -> (r: Result<usize, String>)
    ensures
        match r {
            Ok(place) => place < found.titles.len() && place == tui::title_place(
                found.titles.deep_view(),
                title_idx,
            ),
            Err(message) => tui::title_place(found.titles.deep_view(), title_idx)
                == found.titles.len() && message@ == rip::no_episode_text(title_idx),
        },
{
    match tui::find_title(&found.titles, title_idx) {
        Some(place) => Ok(place),
        None => {
            let mut message = "Title ".to_owned();
            text::push_decimal(&mut message, title_idx as u64);
            message.append(" not found");
            Err(message)
        },
    }
}

/// The job for an episode.
pub open spec fn episode_job(
    target: MediaTarget,
    streams: StreamConfigs,
    choice: tui::ShowChoiceModel,
    episode: u32,
    c: config::ConfigModel,
    created_at: Timestamp,
) -> job::DistributedJobModel {
    job::DistributedJobModel {
        content_type: ContentType::Episode,
        relative_output_path: jellyfin::episode_file(
            choice.tmdb.name,
            choice.tmdb.year,
            choice.tmdb.id,
            choice.season,
            episode,
        ),
        metadata: seq![
            ("show"@, choice.tmdb.name),
            ("season"@, text::decimal(choice.season as nat)),
            ("episode"@, text::decimal(episode as nat)),
        ],
        ..bare_job(target, streams, c, created_at)
    }
}

/// The job for the episode of the chosen title at `index`, created at some time.
pub fn episode_job_at(
    target: MediaTarget,
    streams: StreamConfigs,
    choice: &ShowChoice,
    index: usize,
    config: &Config,
    created_at: Timestamp,
) -> (r: DistributedJob)
    requires
        choice.start_episode + index <= u32::MAX,
    ensures
        r.deep_view() == episode_job(
            target,
            streams,
            choice.deep_view(),
            (choice.start_episode + index) as u32,
            config.deep_view(),
            created_at,
        ),
{
    let episode: u32 = choice.start_episode + index as u32;
    let mut made = make_bare_job(target, streams, config, created_at);
    made.content_type = ContentType::Episode;
    made.relative_output_path =
    jellyfin::relative_episode_path(
        choice.tmdb.name.as_str(),
        choice.tmdb.year,
        choice.tmdb.id,
        choice.season,
        episode,
    );
    let mut metadata: Vec<(String, String)> = list::single(
        ("show".to_owned(), choice.tmdb.name.clone()),
    );
    list::push(&mut metadata, ("season".to_owned(), text::decimal_text(choice.season as u64)));
    list::push(&mut metadata, ("episode".to_owned(), text::decimal_text(episode as u64)));
    assert(metadata.deep_view() =~= seq![
        ("show"@, choice.tmdb.name@),
        ("season"@, text::decimal(choice.season as nat)),
        ("episode"@, text::decimal(episode as nat)),
    ]);
    made.metadata = metadata;
    made
}

/// The job for the episode of the chosen title at `index`, created now.
pub fn create_episode_job(
    target: MediaTarget,
    streams: StreamConfigs,
    choice: &ShowChoice,
    index: usize,
    config: &Config,
) -> (r: DistributedJob)
    requires
        choice.start_episode + index <= u32::MAX,
    ensures
        r.created_at.valid(),
        r.created_at.ordinary(),
        r.created_at.secs >= 0,
        r.deep_view() == episode_job(
            target,
            streams,
            choice.deep_view(),
            (choice.start_episode + index) as u32,
            config.deep_view(),
            r.created_at,
        ),
{
    episode_job_at(target, streams, choice, index, config, clock::now())
}

/// A machine that has its movie directory at some place writes the movie of a
/// job to where ripping it there would have put it.
pub proof fn movie_jobs_go_where_rips_go(
    target: MediaTarget,
    streams: StreamConfigs,
    choice: tui::MovieChoiceModel,
    c: config::ConfigModel,
    created_at: Timestamp,
    shared_dir: Seq<char>,
    movie_dir: Seq<char>,
)
    requires
        c.movie_dir is Some,
    ensures
        movie_job(target, streams, choice, c, created_at) matches Ok(j) && j.local_job(
            shared_dir,
            movie_dir,
        ).output_path == jellyfin::movie_location(
            movie_dir,
            choice.tmdb.title,
            choice.tmdb.year,
            choice.tmdb.id,
        ),
{
    jellyfin::relative_movie_path_leads_to_the_movie(
        movie_dir,
        choice.tmdb.title,
        choice.tmdb.year,
        choice.tmdb.id,
    );
}

/// The same holds of an episode and the show directory.
pub proof fn episode_jobs_go_where_rips_go(
    target: MediaTarget,
    streams: StreamConfigs,
    choice: tui::ShowChoiceModel,
    episode: u32,
    c: config::ConfigModel,
    created_at: Timestamp,
    shared_dir: Seq<char>,
    show_dir: Seq<char>,
)
    ensures
        episode_job(target, streams, choice, episode, c, created_at).local_job(
            shared_dir,
            show_dir,
        ).output_path == jellyfin::episode_location(
            show_dir,
            choice.tmdb.name,
            choice.tmdb.year,
            choice.tmdb.id,
            choice.season,
            episode,
        ),
{
    jellyfin::relative_episode_path_leads_to_the_episode(
        show_dir,
        choice.tmdb.name,
        choice.tmdb.year,
        choice.tmdb.id,
        choice.season,
        episode,
    );
}

/// A job's transcode reads the media file that was written for it.
pub proof fn jobs_read_their_own_media(
    target: MediaTarget,
    streams: StreamConfigs,
    c: config::ConfigModel,
    created_at: Timestamp,
    dirs: SharedDirs,
    output_base: Seq<char>,
)
    requires
        dirs.well_formed(),
        target.well_formed(dirs),
    ensures
        bare_job(target, streams, c, created_at).local_job(dirs.root@, output_base).input_path
            == target.media_path@,
{
}

/// A worker does with a movie's job what ripping the movie there would have done
/// with the same file: the same tracks, chapters and settings, and a title on top.
pub proof fn shared_movies_are_transcoded_like_rips(
    target: MediaTarget,
    streams: StreamConfigs,
    title: rip::analysis::AnalysedTitleModel,
    probed: rip::ProbedModel,
    choice: tui::MovieChoiceModel,
    c: config::ConfigModel,
    created_at: Timestamp,
    dirs: SharedDirs,
    movie_dir: Seq<char>,
)
    requires
        dirs.well_formed(),
        target.well_formed(dirs),
        c.movie_dir is Some,
        rip::resolved(
            title,
            probed,
            choice.audio_selections,
            choice.subtitle_indices,
            c.transcode.audio_bitrate,
        ) == Ok::<_, Seq<char>>(
            (
                streams.audio_tracks.deep_view(),
                streams.subtitle_tracks.deep_view(),
                streams.chapters.deep_view(),
            ),
        ),
    ensures
        ({
            let ripped = rip::title_job(
                title,
                target.media_path@,
                jellyfin::movie_location(
                    movie_dir,
                    choice.tmdb.title,
                    choice.tmdb.year,
                    choice.tmdb.id,
                ),
                probed,
                choice.audio_selections,
                choice.subtitle_indices,
                c.transcode,
            );
            &&& movie_job(target, streams, choice, c, created_at) matches Ok(j)
            &&& ripped matches Ok(t)
            &&& j.local_job(dirs.root@, movie_dir) == (transcode::TranscodeJobModel {
                metadata: seq![("title"@, choice.tmdb.title)],
                ..t
            })
        }),
{
    movie_jobs_go_where_rips_go(target, streams, choice, c, created_at, dirs.root@, movie_dir);
}

/// The same holds of an episode's job, with the show, the season and the episode
/// on top.
pub proof fn shared_episodes_are_transcoded_like_rips(
    target: MediaTarget,
    streams: StreamConfigs,
    title: rip::analysis::AnalysedTitleModel,
    probed: rip::ProbedModel,
    choice: tui::ShowChoiceModel,
    episode: u32,
    c: config::ConfigModel,
    created_at: Timestamp,
    dirs: SharedDirs,
    show_dir: Seq<char>,
)
    requires
        dirs.well_formed(),
        target.well_formed(dirs),
        rip::resolved(
            title,
            probed,
            choice.audio_selections,
            choice.subtitle_indices,
            c.transcode.audio_bitrate,
        ) == Ok::<_, Seq<char>>(
            (
                streams.audio_tracks.deep_view(),
                streams.subtitle_tracks.deep_view(),
                streams.chapters.deep_view(),
            ),
        ),
    ensures
        ({
            let ripped = rip::title_job(
                title,
                target.media_path@,
                jellyfin::episode_location(
                    show_dir,
                    choice.tmdb.name,
                    choice.tmdb.year,
                    choice.tmdb.id,
                    choice.season,
                    episode,
                ),
                probed,
                choice.audio_selections,
                choice.subtitle_indices,
                c.transcode,
            );
            let j = episode_job(target, streams, choice, episode, c, created_at);
            &&& ripped matches Ok(t)
            &&& j.local_job(dirs.root@, show_dir) == (transcode::TranscodeJobModel {
                metadata: seq![
                    ("show"@, choice.tmdb.name),
                    ("season"@, text::decimal(choice.season as nat)),
                    ("episode"@, text::decimal(episode as nat)),
                ],
                ..t
            })
        }),
{
    episode_jobs_go_where_rips_go(
        target,
        streams,
        choice,
        episode,
        c,
        created_at,
        dirs.root@,
        show_dir,
    );
}

/// What is said when a movie's job has been created.
pub fn movie_job_message(job: &DistributedJob, choice: &MovieChoice) -> (r: String)
    ensures
        r@ == "Created job "@ + job::id_form(job.id) + " for '"@ + choice.tmdb.title@ + "'"@,
{
    let mut message = "Created job ".to_owned();
    message.append(job.id_text().as_str());
    message.append(" for '");
    message.append(choice.tmdb.title.as_str());
    message.append("'");
    message
}

/// What is said when an episode's job has been created.
pub fn episode_job_message(job: &DistributedJob, choice: &ShowChoice, index: usize) -> (r: String)
    requires
        choice.start_episode + index <= u32::MAX,
    ensures
        r@ == "Created job "@ + job::id_form(job.id) + " for S"@ + text::two_digits(
            choice.season as nat,
        ) + "E"@ + text::two_digits((choice.start_episode + index) as nat),
{
    let mut message = "Created job ".to_owned();
    message.append(job.id_text().as_str());
    message.append(" for S");
    text::push_two_digits(&mut message, choice.season as u64);
    message.append("E");
    text::push_two_digits(&mut message, choice.start_episode as u64 + index as u64);
    message
}

/// A new job says what its disc, the choice and the configuration say: it is made for
/// its own media file, not yet tried, to be tried as often as configured, and carries
/// the tracks and chapters of the title with the configured video settings.
pub proof fn jobs_say_what_was_chosen(
    target: MediaTarget,
    streams: StreamConfigs,
    movie: tui::MovieChoiceModel,
    show: tui::ShowChoiceModel,
    episode: u32,
    c: config::ConfigModel,
    created_at: Timestamp,
)
    ensures
        ({
            let j = episode_job(target, streams, show, episode, c, created_at);
            &&& j.content_type is Episode
            &&& j.metadata.len() == 3
            &&& j.metadata[0] == ("show"@, show.tmdb.name)
            &&& j.metadata[1] == ("season"@, text::decimal(show.season as nat))
            &&& j.metadata[2] == ("episode"@, text::decimal(episode as nat))
            &&& says_what_was_read(j, target, streams, c, created_at)
        }),
        movie_job(target, streams, movie, c, created_at) matches Ok(j) ==> {
            &&& j.content_type is Movie
            &&& j.metadata.len() == 1
            &&& j.metadata[0] == ("title"@, movie.tmdb.title)
            &&& says_what_was_read(j, target, streams, c, created_at)
        },
        movie_job(target, streams, movie, c, created_at) is Ok <==> c.movie_dir is Some,
{
    transcode::config::codecs_are_named(c.transcode.video_codec);
}

/// That a new job is made from a title as it was read.
pub open spec fn says_what_was_read(
    j: job::DistributedJobModel,
    target: MediaTarget,
    streams: StreamConfigs,
    c: config::ConfigModel,
    created_at: Timestamp,
) -> bool {
    &&& j.id == target.id
    &&& j.version == 1
    &&& j.media_file == target.media_file@
    &&& j.disc_volume_id is None
    &&& j.container is Mkv
    &&& j.video.crf == c.transcode.crf
    &&& j.video.preset == c.transcode.preset
    &&& j.video.source_stream is None
    &&& j.video.extra_options.len() == 0
    &&& j.video.codec is H264 <==> c.transcode.video_codec == "h264"@
    &&& j.video.codec is H265 <==> c.transcode.video_codec == "h265"@
    &&& j.video.codec is Av1 <==> c.transcode.video_codec == "av1"@
    &&& j.audio_tracks == streams.audio_tracks.deep_view()
    &&& j.subtitle_tracks == streams.subtitle_tracks.deep_view()
    &&& j.chapters == streams.chapters.deep_view()
    &&& j.attempt == 0
    &&& j.max_retries == c.distributed.max_retries
    &&& j.created_at == created_at
    &&& j.error_message is None
}

} // verus!
