use discrip::config::Config;
use discrip::disc::DiscFormat;
use discrip::distributed::clock::Timestamp;
use discrip::distributed::fs_ops::{
    claim_job, clean_job, complete_job, fail_job, heartbeat_path, heartbeat_stale_at, is_heartbeat_stale,
    is_job_file, is_too_old, maybe_cleanup_media, recover_job, remove_heartbeat, requeue_job,
    retry_job, write_heartbeat, write_job_atomic, FsStep, SharedDirs,
};
use discrip::distributed::job::{ContentType, DistributedJob, Heartbeat};
use discrip::distributed::manager::{
    clean_jobs, list_jobs, recover_stale, recovery_summary, required_shared_dir, retry_jobs,
    JobListing, ListedJob,
};
use discrip::distributed::reader::{
    create_episode_job, create_movie_job, episode_job_at, episode_job_message, episode_title,
    movie_job_at, movie_job_message, movie_title, plan_show_jobs, MediaTarget, ShowJobStep,
};
use discrip::distributed::worker::{
    claimed_message, failure_message, job_failed, job_succeeded, local_job, output_base,
    recover_stale_job, start_message, Pulse, PulseAction, Worker, WorkerAction,
};
use discrip::rip::analysis::{DiscType, TitleAnalysis};
use discrip::rip::tui::{MovieChoice, ShowChoice};
use discrip::rip::StreamConfigs;
use discrip::tmdb::{TmdbMovie, TmdbShow};
use discrip::transcode::config::{
    AudioAction, AudioConfig, ChapterInfo, ContainerFormat, SubtitleConfig, VideoCodec, VideoConfig,
};

const ID: u128 = 0x67e55044_10b1_426f_9247_bb680e5fe0c8;
const ID_TEXT: &str = "67e55044-10b1-426f-9247-bb680e5fe0c8";

fn at(secs: i64, nanos: u32) -> Timestamp {
    Timestamp { secs, nanos }
}

fn job(attempt: u32, max_retries: u32) -> DistributedJob {
    DistributedJob {
        id: ID,
        version: 1,
        media_file: "m.m2ts".to_string(),
        disc_volume_id: None,
        content_type: ContentType::Movie,
        relative_output_path: "X/X.mkv".to_string(),
        container: ContainerFormat::Mkv,
        video: VideoConfig { codec: VideoCodec::H264, ..VideoConfig::default() },
        audio_tracks: vec![AudioConfig {
            source_stream: 1,
            language: Some("eng".to_string()),
            name: None,
            action: AudioAction::Copy,
        }],
        subtitle_tracks: vec![SubtitleConfig {
            source_stream: 2,
            language: None,
            name: None,
            forced: true,
        }],
        chapters: vec![ChapterInfo { id: 1, title: "C".to_string(), start_ms: 0, end_ms: 9 }],
        metadata: vec![("title".to_string(), "X".to_string())],
        attempt,
        max_retries,
        created_at: at(1_431_648_000, 0),
        error_message: None,
    }
}

fn dirs() -> SharedDirs {
    SharedDirs::new("/shared")
}

fn steps(steps: &[FsStep]) -> Vec<String> {
    steps.iter().map(step).collect()
}

fn step(step: &FsStep) -> String {
    match step {
        FsStep::WriteJob { path } => format!("job {}", path),
        FsStep::WriteHeartbeat { path } => format!("beat {}", path),
        FsStep::Rename { from, to } => format!("{} -> {}", from, to),
        FsStep::Remove { path } => format!("rm {}", path),
    }
}

fn path(dir: &str) -> String {
    format!("/shared/{}/{}.job.json", dir, ID_TEXT)
}

fn temp(dir: &str) -> String {
    format!("/shared/{}/.{}.job.json.tmp", dir, ID_TEXT)
}

fn beat() -> String {
    format!("/shared/active/{}.heartbeat", ID_TEXT)
}

fn moved(dir: &str) -> Vec<String> {
    vec![
        format!("job {}", temp(dir)),
        format!("{} -> {}", temp(dir), path(dir)),
        format!("rm {}", path("active")),
        format!("rm {}", beat()),
    ]
}

#[test]
fn directories_stand_below_the_root() {
    let d = SharedDirs::new("/shared/");
    assert_eq!(d.root, "/shared/");
    assert_eq!(
        d.required_dirs(),
        vec![
            "/shared/pending",
            "/shared/active",
            "/shared/completed",
            "/shared/failed",
            "/shared/media",
        ]
    );
}

#[test]
fn identifiers_have_their_usual_form() {
    assert_eq!(job(0, 3).id_text(), ID_TEXT);
    assert_eq!(job(0, 3).id_text(), uuid::Uuid::parse_str(ID_TEXT).unwrap().to_string());
    let mut zero = job(0, 3);
    zero.id = 0x1a;
    assert_eq!(zero.id_text(), "00000000-0000-0000-0000-00000000001a");
}

#[test]
fn jobs_are_written_under_another_name_first() {
    assert_eq!(
        steps(&write_job_atomic("/shared/pending", &job(0, 3))),
        vec![
            format!("job {}", temp("pending")),
            format!("{} -> {}", temp("pending"), path("pending")),
        ]
    );
    assert_eq!(
        steps(&write_heartbeat(&dirs(), ID)),
        vec![
            format!("beat /shared/active/.{}.heartbeat.tmp", ID_TEXT),
            format!("/shared/active/.{}.heartbeat.tmp -> {}", ID_TEXT, beat()),
        ]
    );
    assert_eq!(heartbeat_path(&dirs(), ID), beat());
}

#[test]
fn the_last_job_of_an_identifier_is_kept() {
    let mut files: Vec<(String, u32)> = Vec::new();
    let mut put = |path: &str, content: u32| {
        files.retain(|f| f.0 != path);
        files.push((path.to_string(), content));
    };
    let other = ID + 1;
    for (id, content) in [(ID, 1), (other, 2), (ID, 3)] {
        let mut j = job(0, 3);
        j.id = id;
        let mut held = None;
        for step in write_job_atomic("/shared/pending", &j) {
            match step {
                FsStep::WriteJob { path } => held = Some(path),
                FsStep::Rename { from, to } => {
                    assert_eq!(held.take(), Some(from));
                    put(&to, content);
                }
                _ => panic!(),
            }
        }
        assert_eq!(held, None);
    }
    assert_eq!(
        files,
        vec![
            (path("pending").replace("e0c8", "e0c9"), 2),
            (path("pending"), 3),
        ]
    );
}

#[test]
fn claims_and_completions_are_renames() {
    assert_eq!(
        step(&claim_job(&dirs(), ID)),
        format!("{} -> {}", path("pending"), path("active"))
    );
    assert_eq!(
        steps(&complete_job(&dirs(), ID)),
        vec![
            format!("{} -> {}", path("active"), path("completed")),
            format!("rm {}", beat()),
        ]
    );
    assert_eq!(step(&remove_heartbeat(&dirs(), ID)), format!("rm {}", beat()));
    assert_eq!(step(&clean_job(&dirs(), ID)), format!("rm {}", path("completed")));
}

#[test]
fn failures_are_retried_and_then_final() {
    let mut j = job(0, 2);
    assert_eq!(steps(&fail_job(&dirs(), &mut j, "one")), moved("pending"));
    assert_eq!((j.attempt, j.error_message.as_deref()), (1, Some("one")));
    assert_eq!(steps(&fail_job(&dirs(), &mut j, "two")), moved("failed"));
    assert_eq!((j.attempt, j.error_message.as_deref()), (2, Some("two")));
    assert_eq!(steps(&requeue_job(&dirs(), &j)), moved("pending"));
    assert_eq!(
        steps(&retry_job(&dirs(), &mut j)),
        vec![
            format!("job {}", temp("pending")),
            format!("{} -> {}", temp("pending"), path("pending")),
            format!("rm {}", path("failed")),
        ]
    );
    assert_eq!((j.attempt, j.error_message), (0, None));
}

#[test]
fn silence_counts_as_an_attempt() {
    let mut j = job(0, 2);
    let (writing, clearing) = recover_job(&dirs(), &mut j);
    assert_eq!([steps(&writing), steps(&clearing)].concat(), moved("pending"));
    assert_eq!((j.attempt, j.error_message.as_deref()), (1, None));
    let (writing, clearing) = recover_job(&dirs(), &mut j);
    assert_eq!([steps(&writing), steps(&clearing)].concat(), moved("failed"));
    assert_eq!(clearing.len(), 2);
    assert_eq!(
        j.error_message.as_deref(),
        Some("Stale heartbeat - max retries exceeded")
    );
}

#[test]
fn only_complete_job_files_are_jobs() {
    assert!(is_job_file(&format!("{}.job.json", ID_TEXT)));
    assert!(!is_job_file(&format!(".{}.job.json.tmp", ID_TEXT)));
    assert!(!is_job_file(&format!("{}.heartbeat", ID_TEXT)));
    assert!(!is_job_file(".json"));
    assert!(!is_job_file("json"));
    assert!(is_job_file("a.json"));
}

#[test]
fn old_and_missing_heartbeats_are_stale() {
    let hb = |secs, nanos| {
        Some(Heartbeat { worker_name: "w".to_string(), timestamp: at(secs, nanos), pid: 1 })
    };
    assert!(heartbeat_stale_at(&None, at(0, 0), 3600));
    assert!(!heartbeat_stale_at(&hb(1000, 0), at(1010, 999_999_999), 10));
    assert!(heartbeat_stale_at(&hb(1000, 0), at(1011, 0), 10));
    assert!(!heartbeat_stale_at(&hb(1000, 500_000_000), at(1011, 0), 10));
    assert!(!heartbeat_stale_at(&hb(2000, 0), at(1000, 0), 10));
    // A limit beyond what a signed number holds is taken for a negative one.
    assert!(heartbeat_stale_at(&hb(1000, 0), at(1000, 0), u64::MAX));
    assert!(!is_too_old(-2, u64::MAX));
    assert!(is_heartbeat_stale(&None, 3600));
    assert!(is_heartbeat_stale(&hb(0, 0), 3600));
    assert!(!is_heartbeat_stale(&Some(Heartbeat::beat("w", 7)), 3600));
    assert!(at(59, 1_500_000_000).is_valid());
    assert!(!at(58, 1_500_000_000).is_valid());
    assert!(at(-1, 1_500_000_000).is_valid());
    assert!(!at(8_210_266_876_800, 0).is_valid());
    assert!(at(-8_334_601_228_800, 0).is_valid());
}

#[test]
fn leap_seconds_are_counted_where_they_end() {
    let hb = |secs, nanos| {
        Some(Heartbeat { worker_name: "w".to_string(), timestamp: at(secs, nanos), pid: 1 })
    };
    // From half a leap second before 60 to 61 it is a second and a half.
    assert!(heartbeat_stale_at(&hb(59, 1_500_000_000), at(61, 0), 0));
    assert!(!heartbeat_stale_at(&hb(59, 1_500_000_000), at(61, 0), 1));
    // Without the leap second it is one second from 60 to 61.
    assert!(!heartbeat_stale_at(&hb(60, 0), at(61, 0), 1));
    let plain = |a: Timestamp| chrono::DateTime::from_timestamp(a.secs, a.nanos).unwrap();
    let times = [
        at(59, 1_500_000_000),
        at(59, 999_999_999),
        at(61, 0),
        at(86_399, 1_000_000_001),
        at(86_400, 5),
        at(172_799, 1_999_999_999),
        at(-1, 1_250_000_000),
        at(-86_341, 1_100_000_000),
        at(0, 0),
    ];
    // The rule for leap seconds, in whole seconds.
    let leap = |t: Timestamp| t.nanos >= 1_000_000_000;
    let day = |t: Timestamp| t.secs.rem_euclid(86_400);
    for now in times {
        for then in times {
            let extra: i128 = if day(now) > day(then) && leap(then) {
                1
            } else if day(now) < day(then) && leap(now) {
                -1
            } else {
                0
            };
            let nanos = (now.secs as i128 - then.secs as i128 + extra) * 1_000_000_000
                + now.nanos as i128
                - then.nanos as i128;
            let counted = plain(now).signed_duration_since(plain(then)).num_seconds();
            assert_eq!(counted as i128, nanos / 1_000_000_000);
        }
    }
}

#[test]
fn a_pulse_beats_until_the_job_is_done() {
    let mut pulse = Pulse::new();
    for _ in 0..2 {
        assert_eq!(pulse.next(false), PulseAction::Beat);
        for _ in 0..30 {
            assert_eq!(pulse.next(false), PulseAction::WaitSecond);
        }
    }
    assert_eq!(pulse.next(true), PulseAction::Stop);
    assert_eq!(Pulse::new().next(true), PulseAction::Stop);
}

#[test]
fn the_calendar_ends_where_the_clock_says() {
    let known = |secs, nanos| chrono::DateTime::from_timestamp(secs, nanos).is_some();
    for (secs, nanos) in [
        (8_210_266_876_799, 999_999_999),
        (8_210_266_876_800, 0),
        (-8_334_601_228_800, 0),
        (-8_334_601_228_801, 0),
        (119, 1_999_999_999),
        (119, 2_000_000_000),
        (118, 1_000_000_000),
        (-1, 1_000_000_000),
    ] {
        assert_eq!(at(secs, nanos).is_valid(), known(secs, nanos));
    }
}

#[test]
fn needed_media_stays() {
    let d = dirs();
    assert_eq!(maybe_cleanup_media(&d, &vec![job(0, 1)], &vec![], "m.m2ts"), None);
    assert_eq!(maybe_cleanup_media(&d, &vec![], &vec![job(0, 1)], "m.m2ts"), None);
    assert_eq!(
        maybe_cleanup_media(&d, &vec![job(0, 1)], &vec![], "n.m2ts").as_deref(),
        Some("/shared/media/n.m2ts")
    );
}

#[test]
fn jobs_are_made_local() {
    let t = job(0, 3).to_transcode_job("/shared", "/movies");
    assert_eq!(t.input_path, "/shared/media/m.m2ts");
    assert_eq!(t.output_path, "/movies/X/X.mkv");
    assert_eq!(t.video.codec, VideoCodec::H264);
    assert_eq!(t.audio_tracks[0].language.as_deref(), Some("eng"));
    assert!(t.subtitle_tracks[0].forced);
    assert_eq!(t.chapters[0].end_ms, 9);
    assert_eq!(t.metadata, vec![("title".to_string(), "X".to_string())]);
}

// --- manager ---

fn listed(attempt: u32, error: Option<&str>, heartbeat: Option<Heartbeat>) -> ListedJob {
    let mut j = job(attempt, 3);
    j.error_message = error.map(|e| e.to_string());
    ListedJob { job: j, heartbeat }
}

#[test]
fn jobs_are_listed_by_state() {
    let hb = Heartbeat {
        worker_name: "box".to_string(),
        timestamp: at(1_431_648_000, 0),
        pid: 1,
    };
    let lines = list_jobs(&JobListing {
        pending: vec![],
        active: vec![listed(0, None, Some(hb)), listed(1, Some("bad"), None)],
        completed: vec![],
        failed: vec![listed(3, Some("worse"), None)],
    });
    assert_eq!(
        lines,
        vec![
            "",
            "=== Active (2) ===",
            "  67e55044 | Movie | X/X.mkv | attempt 0/3",
            "       heartbeat: box @ 2015-05-15 00:00:00 UTC",
            "  67e55044 | Movie | X/X.mkv | attempt 1/3",
            "       heartbeat: MISSING",
            "       error: bad",
            "",
            "=== Failed (1) ===",
            "  67e55044 | Movie | X/X.mkv | attempt 3/3",
            "       error: worse",
        ]
    );
    assert_eq!(ContentType::Episode.label(), "Episode");
}

#[test]
fn failed_jobs_start_over() {
    let mut j = job(3, 3);
    j.error_message = Some("x".to_string());
    let plan = retry_jobs(&dirs(), vec![j]);
    assert_eq!(plan.summary, "Retried 1 jobs.");
    assert_eq!(plan.moves[0].job.attempt, 0);
    assert_eq!(plan.moves[0].job.error_message, None);
    assert_eq!(plan.moves[0].steps.len(), 3);
    assert_eq!(retry_jobs(&dirs(), vec![]).summary, "No failed jobs to retry.");
}

#[test]
fn completed_jobs_are_cleaned() {
    let plan = clean_jobs(&dirs(), &vec![job(0, 3)], true);
    assert_eq!(plan.summary, "Cleaned 1 completed jobs.");
    assert_eq!(step(&plan.steps[0].step), format!("rm {}", path("completed")));
    assert_eq!(plan.steps[0].media_file.as_deref(), Some("m.m2ts"));
    assert_eq!(clean_jobs(&dirs(), &vec![job(0, 3)], false).steps[0].media_file, None);
    assert_eq!(
        clean_jobs(&dirs(), &vec![], true).summary,
        "No completed jobs to clean."
    );
}

#[test]
fn stale_jobs_are_recovered() {
    let mut j = job(1, 3);
    let r = recover_stale(&dirs(), &mut j);
    assert_eq!(r.announcement, "Recovering stale job 67e55044 (X/X.mkv)");
    assert_eq!(r.outcome, "  -> requeued (attempt 2/3)");
    let r = recover_stale(&dirs(), &mut j);
    assert_eq!(r.outcome, "  -> moved to failed (attempt 3/3)");
    assert_eq!(recovery_summary(0, 0), "No active jobs.");
    assert_eq!(recovery_summary(2, 0), "No stale jobs found.");
    assert_eq!(recovery_summary(2, 1), "Recovered 1 stale jobs.");
    let mut j = job(1, 3);
    let r = recover_stale_job(&dirs(), &mut j);
    assert_eq!(r.announcement, format!("Recovering stale job {} (no heartbeat)", ID_TEXT));
    assert_eq!(r.outcome, format!("Requeued stale job {} (attempt 2/3)", ID_TEXT));
    assert!(!r.clears_anyway);
    let r = recover_stale_job(&dirs(), &mut j);
    assert_eq!(r.outcome, format!("Job {} moved to failed after 3 attempts", ID_TEXT));
    assert!(r.clears_anyway);
}

fn config() -> Config {
    let mut c = Config::default_for("box".to_string());
    c.movie_dir = Some("/movies".to_string());
    c.transcode.video_codec = "av1".to_string();
    c
}

#[test]
fn a_shared_directory_is_needed() {
    let mut c = config();
    assert_eq!(
        required_shared_dir(&c).unwrap_err(),
        "distributed.shared_dir not configured"
    );
    c.distributed.shared_dir = Some("/s".to_string());
    assert_eq!(required_shared_dir(&c), Ok("/s".to_string()));
}

// --- reader ---

fn movie_choice() -> MovieChoice {
    MovieChoice {
        title_idx: 1,
        tmdb: TmdbMovie {
            id: 550,
            title: "Fight Club".to_string(),
            year: Some(1999),
            overview: String::new(),
        },
        audio_selections: vec![],
        subtitle_indices: vec![],
    }
}

fn show_choice() -> ShowChoice {
    ShowChoice {
        title_indices: vec![4, 5],
        tmdb: TmdbShow {
            id: 1,
            name: "Dark".to_string(),
            year: None,
            overview: String::new(),
            seasons: vec![],
        },
        season: 1,
        start_episode: 3,
        audio_selections: vec![],
        subtitle_indices: vec![],
    }
}

fn streams() -> StreamConfigs {
    StreamConfigs { audio_tracks: vec![], subtitle_tracks: vec![], chapters: vec![] }
}

#[test]
fn new_identifiers_are_random() {
    let a = MediaTarget::fresh(&dirs());
    let b = MediaTarget::fresh(&dirs());
    assert_ne!(a.id, b.id);
    assert_ne!(a.media_file, b.media_file);
    assert_eq!(uuid::Uuid::from_u128(a.id).get_version_num(), 4);
    assert_eq!(a.media_path, format!("/shared/media/{}", a.media_file));
    assert_eq!(MediaTarget::for_id(&dirs(), ID).media_file, format!("{}.m2ts", ID_TEXT));
}

#[test]
fn movie_jobs_hold_everything() {
    let target = MediaTarget::for_id(&dirs(), ID);
    let j = movie_job_at(target, streams(), &movie_choice(), &config(), at(5, 6)).unwrap();
    assert_eq!(j.id, ID);
    assert_eq!(j.version, 1);
    assert_eq!(j.content_type, ContentType::Movie);
    assert_eq!(
        j.relative_output_path,
        "Fight Club (1999) [tmdbid-550]/Fight Club (1999) [tmdbid-550].mkv"
    );
    assert_eq!(j.video.codec, VideoCodec::Av1);
    assert_eq!(j.metadata, vec![("title".to_string(), "Fight Club".to_string())]);
    assert_eq!((j.attempt, j.max_retries, j.created_at), (0, 3, at(5, 6)));
    assert_eq!(
        movie_job_message(&j, &movie_choice()),
        format!("Created job {} for 'Fight Club'", ID_TEXT)
    );
    let made = create_movie_job(
        MediaTarget::for_id(&dirs(), ID),
        streams(),
        &movie_choice(),
        &config(),
    );
    assert!(made.unwrap().created_at.secs > 1_431_648_000);
    let mut bare = config();
    bare.movie_dir = None;
    let target = MediaTarget::for_id(&dirs(), ID);
    assert_eq!(
        create_movie_job(target, streams(), &movie_choice(), &bare).unwrap_err(),
        "movie_dir not configured"
    );
}

#[test]
fn episode_jobs_count_up() {
    let target = MediaTarget::for_id(&dirs(), ID);
    let j = episode_job_at(target, streams(), &show_choice(), 1, &config(), at(5, 6));
    assert_eq!(j.content_type, ContentType::Episode);
    assert_eq!(j.relative_output_path, "Dark [tmdbid-1]/Season 01/Dark S01E04.mkv");
    assert_eq!(
        j.metadata,
        vec![
            ("show".to_string(), "Dark".to_string()),
            ("season".to_string(), "1".to_string()),
            ("episode".to_string(), "4".to_string()),
        ]
    );
    assert_eq!(
        episode_job_message(&j, &show_choice(), 1),
        format!("Created job {} for S01E04", ID_TEXT)
    );
    let target = MediaTarget::for_id(&dirs(), ID);
    let j = create_episode_job(target, streams(), &show_choice(), 0, &config());
    assert!(j.relative_output_path.ends_with("S01E03.mkv"));
}

#[test]
fn all_titles_are_read_first() {
    let mut c = config();
    assert_eq!(plan_show_jobs(&show_choice(), &c).unwrap_err(), "show_dir not configured");
    c.show_dir = Some("/shows".to_string());
    assert_eq!(
        plan_show_jobs(&show_choice(), &c).unwrap(),
        vec![
            ShowJobStep::Read { index: 0 },
            ShowJobStep::Read { index: 1 },
            ShowJobStep::Create { index: 0 },
            ShowJobStep::Create { index: 1 },
        ]
    );
    let nothing = TitleAnalysis {
        titles: vec![],
        main_title_idx: 0,
        detected_type: DiscType::Movie { title_idx: 0 },
        format: DiscFormat::BluRay,
    };
    assert_eq!(episode_title(&nothing, 4).unwrap_err(), "Title 4 not found");
    assert_eq!(
        movie_title(&nothing, &movie_choice()).unwrap_err(),
        "Selected title not found"
    );
}

#[test]
fn workers_do_what_a_rip_would_do() {
    let chapter = || ChapterInfo { id: 1, title: "Chapter 1".to_string(), start_ms: 0, end_ms: 1 };
    let target = MediaTarget::for_id(&dirs(), ID);
    let media_path = target.media_path.clone();
    let streams = StreamConfigs {
        audio_tracks: vec![],
        subtitle_tracks: vec![],
        chapters: vec![chapter()],
    };
    let j = movie_job_at(target, streams, &movie_choice(), &config(), at(0, 0)).unwrap();
    let local = local_job(&j, &dirs(), &config()).unwrap().job;
    assert_eq!(local.input_path, media_path);
    assert_eq!(
        local.output_path,
        discrip::rip::jellyfin::movie_path("/movies", "Fight Club", Some(1999), 550)
    );
    assert_eq!(local.chapters.len(), 1);
    assert_eq!(local.video.codec, VideoCodec::Av1);
}

// --- worker ---

#[test]
fn a_worker_tries_jobs_in_order_and_sleeps() {
    let mut w = Worker::new(2);
    assert_eq!(w.next(false), WorkerAction::Poll);
    w.listed(2);
    assert_eq!(w.next(false), WorkerAction::Claim(0));
    w.settled();
    assert_eq!(w.next(false), WorkerAction::Claim(1));
    w.settled();
    assert_eq!(w.next(false), WorkerAction::SleepSecond);
    assert_eq!(w.next(false), WorkerAction::SleepSecond);
    assert_eq!(w.next(false), WorkerAction::Poll);
    w.listed(0);
    assert_eq!(w.next(false), WorkerAction::SleepSecond);
    let mut eager = Worker::new(0);
    assert_eq!(eager.next(false), WorkerAction::Poll);
    eager.listed(0);
    assert_eq!(eager.next(false), WorkerAction::Poll);
}

#[test]
fn a_shutdown_ends_every_phase() {
    let mut w = Worker::new(5);
    assert_eq!(w.next(true), WorkerAction::Stop);
    let mut w = Worker::new(5);
    w.next(false);
    w.listed(3);
    w.next(false);
    w.settled();
    assert_eq!(w.next(true), WorkerAction::Stop);
    assert_eq!(w.next(false), WorkerAction::Stop);
    let mut w = Worker::new(5);
    w.next(false);
    w.listed(0);
    assert_eq!(w.next(false), WorkerAction::SleepSecond);
    assert_eq!(w.next(true), WorkerAction::Stop);
}

#[test]
fn workers_write_below_their_own_directories() {
    let c = config();
    assert_eq!(output_base(ContentType::Movie, &c), Ok("/movies".to_string()));
    assert_eq!(
        output_base(ContentType::Episode, &c),
        Err("show_dir not configured".to_string())
    );
    let local = local_job(&job(0, 3), &dirs(), &c).unwrap();
    assert_eq!(local.output_path, "/movies/X/X.mkv");
    assert_eq!(local.job.input_path, "/shared/media/m.m2ts");
    let mut bare = config();
    bare.movie_dir = None;
    assert_eq!(local_job(&job(0, 3), &dirs(), &bare).unwrap_err(), "movie_dir not configured");
}

#[test]
fn outcomes_move_the_job_on() {
    let done = job_succeeded(&dirs(), &job(0, 3), &config());
    assert_eq!(done.message, format!("Completed job {}", ID_TEXT));
    assert_eq!(done.media_file.as_deref(), Some("m.m2ts"));
    assert_eq!(done.steps.len(), 2);
    let mut keep = config();
    keep.distributed.cleanup_raw_media = false;
    assert_eq!(job_succeeded(&dirs(), &job(0, 3), &keep).media_file, None);
    let mut j = job(1, 3);
    assert_eq!(failure_message(&j, "x"), format!("Job {} failed: x", ID_TEXT));
    let failed = job_failed(&dirs(), &mut j, "x");
    assert_eq!(failed.message, format!("Requeued job {} (attempt 2/3)", ID_TEXT));
    assert_eq!(steps(&failed.steps), moved("pending"));
    let failed = job_failed(&dirs(), &mut j, "x");
    assert_eq!(
        failed.message,
        format!("Job {} moved to failed after 3 attempts", ID_TEXT)
    );
    assert_eq!(steps(&failed.steps), moved("failed"));
    assert_eq!(claimed_message(&j), format!("Claimed job {} (X/X.mkv)", ID_TEXT));
    assert_eq!(start_message("box", "/s"), "Worker 'box' started, polling /s");
}
