use discrip::bluray::{BdChapter, BdClip, BdStream, BdTitle};
use discrip::config::Config;
use discrip::disc::DiscFormat;
use discrip::rip::analysis::{
    analyse_disc, audio_language_key, detect_disc_type, lang_from_bytes, no_bluray_message,
    title_score, AnalysedTitle, AudioStreamInfo, ChapterMark, DiscType, SubtitleStreamInfo,
    TitleAnalysis,
};
use discrip::rip::jellyfin::{
    episode_number, episode_path, guess_next_episode, highest_episode, movie_path,
    relative_episode_path, relative_movie_path, sanitize_filename, season_dir,
};
use discrip::rip::tui::{
    audio_action_prompt, audio_selection, audio_stream_labels, default_audio_streams,
    default_content_type, default_episodes, default_subtitle_streams, default_title,
    disc_overview, format_coding_type, movie_choice, movie_choices, movie_title_labels,
    plan_lookup, required_token, season_choices, season_directory, selected_subtitles,
    selected_titles, show_choice, show_choices, show_title_labels, subtitle_stream_labels,
    suggested_episode, AudioSelection, AudioSelectionAction, Lookup, MediaChoice, MovieChoice,
    ShowChoice,
};
use discrip::rip::{
    build_transcode_job, make_track_names, plan_movie_rip, plan_show_rip, probe_input_streams,
    read_message, resolve_stream_configs, run_rip, Medium, ProbedStreams, StreamProbe,
};
use discrip::tmdb::{TmdbMovie, TmdbSeason, TmdbShow, TmdbUrlType};
use discrip::transcode::config::{AudioAction, ContainerFormat, VideoCodec};

fn strings(items: &[&str]) -> Vec<String> {
    items.iter().map(|s| s.to_string()).collect()
}

fn audio(index_in_clip: usize, language: &str, coding_type: u8) -> AudioStreamInfo {
    AudioStreamInfo { index_in_clip, pid: 0x1100, language: language.to_string(), coding_type }
}

fn subtitle(index_in_clip: usize, language: &str) -> SubtitleStreamInfo {
    SubtitleStreamInfo { index_in_clip, pid: 0x1200, language: language.to_string(), forced: false }
}

fn analysed(index: u32, duration_secs: u64, languages: &[&str]) -> AnalysedTitle {
    AnalysedTitle {
        index,
        playlist: index,
        duration_secs,
        chapter_count: 1,
        chapters: vec![ChapterMark { index: 0, start_ticks: 180, duration_ticks: 90_089 }],
        audio_streams: languages.iter().enumerate().map(|(i, l)| audio(i, l, 0x81)).collect(),
        subtitle_streams: vec![subtitle(0, "eng"), subtitle(1, "deu")],
        score: 0,
    }
}

fn found(titles: Vec<AnalysedTitle>, detected_type: DiscType) -> TitleAnalysis {
    TitleAnalysis { titles, main_title_idx: 1, detected_type, format: DiscFormat::BluRay }
}

fn movie() -> TmdbMovie {
    TmdbMovie { id: 550, title: "Fight: Club".to_string(), year: Some(1999), overview: String::new() }
}

fn show() -> TmdbShow {
    TmdbShow {
        id: 1396,
        name: "Dark".to_string(),
        year: None,
        overview: String::new(),
        seasons: vec![
            TmdbSeason { season_number: 1, episode_count: 10, name: "Season 1".to_string() },
            TmdbSeason { season_number: 2, episode_count: 8, name: "Two".to_string() },
        ],
    }
}

fn config() -> Config {
    let mut config = Config::default_for("host".to_string());
    config.movie_dir = Some("/movies".to_string());
    config.show_dir = Some("/shows/".to_string());
    config.transcode.video_codec = "h265".to_string();
    config.transcode.audio_bitrate = Some(192_000);
    config
}

// --- analysis ---

#[test]
fn scores_favour_the_main_title() {
    assert_eq!(title_score(1, 299, 1), 4);
    assert_eq!(title_score(1, 300, 1), 5);
    assert_eq!(title_score(2, 600, 1), 0);
    assert_eq!(title_score(2, 601, 1), 1);
    assert_eq!(title_score(2, 0, 1), -1);
}

#[test]
fn language_keys_are_sorted_sets() {
    let streams = vec![
        audio(0, "eng", 1),
        audio(1, "deu", 1),
        audio(2, "und", 1),
        audio(3, "eng", 1),
    ];
    assert_eq!(audio_language_key(&streams), strings(&["deu", "eng"]));
    assert!(audio_language_key(&vec![audio(0, "und", 1)]).is_empty());
}

fn episodes(titles: &Vec<AnalysedTitle>) -> Option<Vec<u32>> {
    match detect_disc_type(titles, 1) {
        DiscType::Movie { title_idx } => {
            assert_eq!(title_idx, 1);
            None
        }
        DiscType::Show { episode_indices } => Some(episode_indices),
    }
}

#[test]
fn alike_long_titles_are_a_show() {
    let titles = vec![
        analysed(4, 1300, &["eng", "deu"]),
        analysed(1, 1320, &["deu", "eng"]),
        analysed(2, 1310, &["eng"]),
        analysed(3, 5000, &["eng", "deu"]),
    ];
    assert_eq!(episodes(&titles), Some(vec![1, 4]));
}

#[test]
fn fifteen_percent_is_the_limit() {
    let titles = vec![analysed(1, 1000, &[]), analysed(2, 1150, &[])];
    assert_eq!(episodes(&titles), Some(vec![1, 2]));
    let titles = vec![analysed(1, 1000, &[]), analysed(2, 1177, &[])];
    assert_eq!(episodes(&titles), None);
}

#[test]
fn short_or_single_titles_are_a_movie() {
    assert_eq!(episodes(&vec![]), None);
    assert_eq!(episodes(&vec![analysed(1, 7000, &["eng"])]), None);
    let titles = vec![analysed(1, 900, &[]), analysed(2, 900, &[])];
    assert_eq!(episodes(&titles), None);
    let titles = vec![analysed(1, 7000, &["eng"]), analysed(2, 7000, &["deu"])];
    assert_eq!(episodes(&titles), None);
}

#[test]
fn repeats_go_from_large_groups_only() {
    let titles = vec![
        analysed(1, 1000, &[]),
        analysed(2, 1000, &[]),
        analysed(3, 1001, &[]),
        analysed(4, 1000, &[]),
    ];
    assert_eq!(episodes(&titles), Some(vec![1, 3]));
    let titles = vec![analysed(1, 1000, &[]), analysed(2, 1000, &[]), analysed(3, 1000, &[])];
    assert_eq!(episodes(&titles), Some(vec![1, 2, 3]));
    let same = vec![
        analysed(1, 1000, &[]),
        analysed(2, 1000, &[]),
        analysed(3, 1000, &[]),
        analysed(4, 1000, &[]),
    ];
    assert_eq!(episodes(&same), None);
}

#[test]
fn bluray_titles_are_ranked() {
    let bd = |idx: u32, secs: u64| BdTitle {
        idx,
        playlist: idx,
        duration: secs * 90_000 + 1,
        angle_count: 1,
        chapter_count: 1,
        clip_count: 1,
        mark_count: 0,
        chapters: vec![BdChapter { idx: 0, start: 5, duration: 6, clip_ref: 0 }],
        clips: vec![BdClip {
            pkt_count: 0,
            in_time: 0,
            out_time: 0,
            video_streams: vec![],
            audio_streams: vec![BdStream {
                coding_type: 0x83,
                format: 0,
                rate: 0,
                lang: *b"eng\0",
                pid: 0x1100,
            }],
            pg_streams: vec![BdStream {
                coding_type: 0x90,
                format: 0,
                rate: 0,
                lang: [0xff, 0, 0, 0],
                pid: 0x1200,
            }],
            sec_audio_streams: vec![],
            sec_video_streams: vec![],
        }],
    };
    let analysis = analyse_disc(&vec![bd(0, 100), bd(1, 700), bd(2, 650), bd(3, 500)], 3);
    let order: Vec<(u32, i32)> = analysis.titles.iter().map(|t| (t.index, t.score)).collect();
    assert_eq!(order, vec![(3, 5), (1, 1), (2, 1), (0, -1)]);
    assert_eq!(analysis.main_title_idx, 3);
    assert!(matches!(analysis.detected_type, DiscType::Movie { title_idx: 3 }));
    assert_eq!(analysis.titles[1].duration_secs, 700);
    assert_eq!(analysis.titles[1].audio_streams[0].language, "eng");
    assert_eq!(analysis.titles[1].audio_streams[0].pid, 0x1100);
    assert_eq!(analysis.titles[1].subtitle_streams[0].language, "und");
    assert_eq!(analysis.titles[1].chapters[0].start_ticks, 5);
    assert_eq!(lang_from_bytes(b"fra\0"), "fra");
    assert_eq!(
        no_bluray_message("/dev/sr0"),
        "Failed to open Blu-ray device at '/dev/sr0' (no disc?)"
    );
}

// --- names and places ---

#[test]
fn names_are_sanitized() {
    assert_eq!(sanitize_filename("a/b\\c:d*e?f\"g<h>i|j"), "abcdefghij");
    assert_eq!(sanitize_filename("Amélie"), "Amélie");
}

#[test]
fn movies_have_their_folder() {
    assert_eq!(
        movie_path("/movies", "Fight: Club", Some(1999), 550),
        "/movies/Fight Club (1999) [tmdbid-550]/Fight Club (1999) [tmdbid-550].mkv"
    );
    assert_eq!(
        movie_path("/movies/", "X", None, 7),
        "/movies/X [tmdbid-7]/X [tmdbid-7].mkv"
    );
    assert_eq!(relative_movie_path("X", None, 7), "X [tmdbid-7]/X [tmdbid-7].mkv");
}

#[test]
fn episodes_have_their_season() {
    assert_eq!(
        episode_path("/shows", "Dark", Some(2017), 70523, 1, 9),
        "/shows/Dark (2017) [tmdbid-70523]/Season 01/Dark S01E09.mkv"
    );
    assert_eq!(
        season_dir("/shows", "Dark", None, 70523, 12),
        "/shows/Dark [tmdbid-70523]/Season 12"
    );
    assert_eq!(
        relative_episode_path("Dark", None, 1, 2, 103),
        "Dark [tmdbid-1]/Season 02/Dark S02E103.mkv"
    );
}

#[test]
fn files_of_different_things_differ() {
    for (a, b) in [(1, 2), (1, 11), (9, 10), (99, 100), (0, 100)] {
        assert_ne!(episode_path("/s", "D", None, 1, 2, a), episode_path("/s", "D", None, 1, 2, b));
        assert_ne!(movie_path("/m", "D", None, a as u64), movie_path("/m", "D", None, b as u64));
    }
    for (a, b) in [((1, 2), (2, 1)), ((1, 11), (11, 1)), ((1, 23), (12, 3))] {
        assert_ne!(
            episode_path("/s", "D", None, 1, a.0, a.1),
            episode_path("/s", "D", None, 1, b.0, b.1)
        );
    }
    let path = episode_path("/s", "a/b", None, 1, 2, 3);
    let path = std::path::Path::new(&path);
    assert_eq!(path.parent().unwrap().to_str().unwrap(), season_dir("/s", "a/b", None, 1, 2));
    assert_eq!(path.file_name().unwrap().to_str().unwrap(), "ab S02E03.mkv");
    assert_ne!(movie_path("/m", "A", None, 1), movie_path("/m", "A [tmdbid-1", None, 11));
}

#[test]
fn relative_paths_lead_to_the_file() {
    for base in ["/shows", "/shows/", "", "rel"] {
        let joined = std::path::Path::new(base).join(relative_episode_path("D", None, 1, 2, 3));
        assert_eq!(joined.to_str().unwrap(), episode_path(base, "D", None, 1, 2, 3));
        let joined = std::path::Path::new(base).join(relative_movie_path("M", Some(1), 2));
        assert_eq!(joined.to_str().unwrap(), movie_path(base, "M", Some(1), 2));
    }
}

#[test]
fn the_next_episode_follows_the_highest() {
    let names = strings(&["Dark S01E02.mkv", "Dark S01E10.mkv", "cover.jpg", "notes SxE99"]);
    assert_eq!(highest_episode(&names), 10);
    assert_eq!(guess_next_episode(&names), 11);
    assert_eq!(guess_next_episode(&strings(&["Elementary S01E05.mkv"])), 6);
    assert_eq!(guess_next_episode(&vec![]), 1);
    assert_eq!(guess_next_episode(&strings(&["Extras.mkv"])), 1);
}

#[test]
fn episode_numbers_are_read_from_names() {
    assert_eq!(episode_number("Dark S01E02.mkv"), Some(2));
    assert_eq!(episode_number("S1E007x"), Some(7));
    assert_eq!(episode_number("SE01"), None);
    assert_eq!(episode_number("S01E"), None);
    assert_eq!(episode_number("S01E99999999999"), None);
    // The pattern may stand anywhere in the name.
    assert_eq!(episode_number("ER S01E02.mkv"), Some(2));
    assert_eq!(episode_number("Elementary S01E05.mkv"), Some(5));
    assert_eq!(episode_number("The Expanse S02E13 Extended.mkv"), Some(13));
    assert_eq!(episode_number("SxE1 S01E S3E4"), Some(4));
    // The first pattern counts.
    assert_eq!(episode_number("S1E2 S3E4"), Some(2));
}

// --- tracks ---

#[test]
fn track_names_number_repeats() {
    assert_eq!(
        make_track_names(&strings(&["English", "French", "English"]), &strings(&["", "", ""])),
        strings(&["English", "French", "English 2"])
    );
    assert_eq!(
        make_track_names(&strings(&["English", "English"]), &strings(&["TrueHD", "AC-3"])),
        strings(&["English (TrueHD)", "English (AC-3)"])
    );
    assert_eq!(make_track_names(&strings(&["English"]), &strings(&["AC-3"])), strings(&["English"]));
}

#[test]
fn numbered_track_names_are_distinct() {
    let langs = strings(&["eng", "deu", "eng", "und", "eng", "deu"]);
    let names = make_track_names(&langs, &vec![String::new(); 6]);
    for i in 0..names.len() {
        for j in 0..i {
            assert_ne!(names[i], names[j]);
        }
    }
}

fn probe(index: usize, medium: Medium, language: Option<&str>, forced: bool) -> StreamProbe {
    StreamProbe { index, medium, language: language.map(|s| s.to_string()), forced }
}

fn probed() -> ProbedStreams {
    probe_input_streams(&vec![
        probe(0, Medium::Other, None, false),
        probe(1, Medium::Audio, Some("eng"), false),
        probe(2, Medium::Subtitle, None, true),
        probe(3, Medium::Audio, None, false),
        probe(4, Medium::Subtitle, Some("deu"), false),
    ])
}

#[test]
fn probed_streams_are_sorted_by_kind() {
    let p = probed();
    assert_eq!(p.audio, vec![(1, Some("eng".to_string())), (3, None)]);
    assert_eq!(p.subtitle.len(), 2);
    assert_eq!(p.subtitle[0].ffmpeg_index, 2);
    assert!(p.subtitle[0].forced);
    assert_eq!(p.subtitle[1].language.as_deref(), Some("deu"));
}

fn select(stream_index_in_clip: usize, action: AudioSelectionAction) -> AudioSelection {
    AudioSelection { stream_index_in_clip, action }
}

#[test]
fn selections_become_tracks() {
    let title = analysed(1, 100, &["eng", "eng"]);
    let selections = vec![
        select(0, AudioSelectionAction::EncodeAac),
        select(0, AudioSelectionAction::Copy),
        select(1, AudioSelectionAction::Copy),
    ];
    let job = build_transcode_job(
        &title,
        "/tmp/in.m2ts",
        "/out.mkv",
        &probed(),
        &selections,
        &vec![1, 0],
        &config(),
    )
    .unwrap();
    assert_eq!(job.input_path, "/tmp/in.m2ts");
    assert_eq!(job.output_path, "/out.mkv");
    assert_eq!(job.container, ContainerFormat::Mkv);
    assert_eq!(job.video.codec, VideoCodec::H265);
    let names: Vec<&str> =
        job.audio_tracks.iter().map(|t| t.name.as_deref().unwrap()).collect();
    assert_eq!(names, vec!["eng (AC-3 → AAC)", "eng (AC-3)", "und"]);
    assert_eq!(job.audio_tracks[0].source_stream, 1);
    assert_eq!(job.audio_tracks[2].source_stream, 3);
    assert_eq!(job.audio_tracks[2].language, None);
    assert!(matches!(
        &job.audio_tracks[0].action,
        AudioAction::Encode { codec_name, bitrate: Some(192_000), .. } if codec_name == "aac"
    ));
    assert!(matches!(job.audio_tracks[1].action, AudioAction::Copy));
    assert_eq!(job.subtitle_tracks[0].source_stream, 4);
    assert_eq!(job.subtitle_tracks[1].name.as_deref(), Some("und"));
    assert!(job.subtitle_tracks[1].forced);
    assert_eq!(job.chapters[0].id, 1);
    assert_eq!(job.chapters[0].title, "Chapter 1");
    assert_eq!((job.chapters[0].start_ms, job.chapters[0].end_ms), (2, 1002));
}

#[test]
fn missing_selections_are_errors() {
    let title = analysed(1, 100, &["eng"]);
    let wrong = vec![select(5, AudioSelectionAction::Copy)];
    assert_eq!(
        resolve_stream_configs(&title, &probed(), &wrong, &vec![9], &config()).unwrap_err(),
        "Audio stream 5 not found in file (file has 2 audio streams)"
    );
    assert_eq!(
        resolve_stream_configs(&title, &probed(), &vec![], &vec![9], &config()).unwrap_err(),
        "Subtitle stream 9 not found in file (file has 2 subtitle streams)"
    );
}

// --- plans ---

fn chosen_movie(title_idx: u32) -> MovieChoice {
    MovieChoice { title_idx, tmdb: movie(), audio_selections: vec![], subtitle_indices: vec![] }
}

fn chosen_show(title_indices: Vec<u32>) -> ShowChoice {
    ShowChoice {
        title_indices,
        tmdb: show(),
        season: 2,
        start_episode: 4,
        audio_selections: vec![],
        subtitle_indices: vec![],
    }
}

fn two_titles() -> TitleAnalysis {
    found(
        vec![analysed(7, 1000, &["eng"]), analysed(1, 1000, &["eng"])],
        DiscType::Movie { title_idx: 1 },
    )
}

#[test]
fn a_movie_rip_is_planned() {
    let step = plan_movie_rip(&two_titles(), &chosen_movie(1), &config()).unwrap();
    assert_eq!(step.place, 1);
    assert_eq!(step.temp_path, "/var/tmp/rip_1.m2ts");
    let output = "/movies/Fight Club (1999) [tmdbid-550]/Fight Club (1999) [tmdbid-550].mkv";
    assert_eq!(step.output_path, output);
    assert_eq!(step.announcement, format!("\nRipping: Fight: Club (1999) -> {}", output));
    assert_eq!(
        plan_movie_rip(&two_titles(), &chosen_movie(9), &config()).unwrap_err(),
        "Selected title not found"
    );
    let mut bare = config();
    bare.movie_dir = None;
    assert_eq!(
        plan_movie_rip(&two_titles(), &chosen_movie(9), &bare).unwrap_err(),
        "movie_dir not configured"
    );
}

#[test]
fn a_show_rip_stops_at_a_missing_title() {
    let (steps, failure) = plan_show_rip(&two_titles(), &chosen_show(vec![1, 7, 3, 1]), &config());
    assert_eq!(steps.len(), 2);
    assert_eq!(failure.as_deref(), Some("Title 3 not found"));
    assert_eq!(steps[1].place, 0);
    assert_eq!(
        steps[1].announcement,
        "\nRipping episode 5 (title 7) -> /shows/Dark [tmdbid-1396]/Season 02/Dark S02E05.mkv"
    );
    assert_ne!(steps[0].temp_path, steps[1].temp_path);
    assert_ne!(steps[0].output_path, steps[1].output_path);
    let mut bare = config();
    bare.show_dir = None;
    let (steps, failure) = plan_show_rip(&two_titles(), &chosen_show(vec![1]), &bare);
    assert!(steps.is_empty());
    assert_eq!(failure.as_deref(), Some("show_dir not configured"));
    assert_eq!(read_message(12_999_999), "read 12 MB");
}

#[test]
fn the_disc_is_ejected_after_success_only() {
    let mut c = config();
    c.eject_on_complete = true;
    let movie = MediaChoice::Movie(chosen_movie(1));
    let plan = run_rip(&two_titles(), &movie, &c);
    assert_eq!((plan.steps.len(), plan.failure.is_none(), plan.eject), (1, true, true));
    let plan = run_rip(&two_titles(), &MediaChoice::Show(chosen_show(vec![1, 3])), &c);
    assert_eq!((plan.steps.len(), plan.failure.is_none(), plan.eject), (1, false, false));
    assert!(!run_rip(&two_titles(), &movie, &config()).eject);
    let plan = run_rip(&two_titles(), &MediaChoice::Movie(chosen_movie(9)), &c);
    assert_eq!(plan.failure.as_deref(), Some("Selected title not found"));
}

// --- the dialogue ---

#[test]
fn the_overview_marks_the_main_title() {
    let mut titles = vec![analysed(1, 3_661, &["eng"]), analysed(12, 60, &[])];
    titles[0].score = 6;
    titles[1].score = -1;
    let analysis = found(titles, DiscType::Show { episode_indices: vec![1, 12] });
    assert_eq!(
        disc_overview(&analysis),
        vec![
            "",
            "=== Blu-ray Disc Analysis ===",
            "",
            "Main title: 1",
            "Found 2 titles:",
            "",
            "  Title   1  01:01:01  chapters=1  audio=1  subs=2  score=+6 [MAIN]",
            "  Title  12  00:01:00  chapters=1  audio=0  subs=2  score=-1",
            "",
            "Detected: TV Show (2 episodes: [1, 12])",
        ]
    );
    assert_eq!(disc_overview(&two_titles())[9], "Detected: Movie (title 1)");
    assert_eq!(default_content_type(&analysis.detected_type), 1);
    assert_eq!(default_content_type(&DiscType::Movie { title_idx: 1 }), 0);
}

#[test]
fn titles_are_labelled_and_preselected() {
    let analysis = two_titles();
    assert_eq!(
        movie_title_labels(&analysis.titles)[0],
        "Title   7  00:16:40  ch=1  audio=1  subs=2  score=+0"
    );
    assert_eq!(
        show_title_labels(&analysis.titles)[0],
        "Title   7  00:16:40  ch=1  audio=1  subs=2"
    );
    assert_eq!(default_title(&analysis), 1);
    assert_eq!(default_episodes(&analysis), vec![false, false]);
    let show = found(analysis.titles, DiscType::Show { episode_indices: vec![7, 8] });
    assert_eq!(default_title(&show), 0);
    assert_eq!(default_episodes(&show), vec![true, false]);
    assert_eq!(selected_titles(&show, &vec![1, 0]), Ok(vec![1, 7]));
    assert_eq!(selected_titles(&show, &vec![]), Err("No titles selected".to_string()));
}

#[test]
fn streams_are_labelled_and_preselected() {
    let streams = vec![audio(0, "eng", 0x83), audio(1, "deu", 0x42)];
    assert_eq!(
        audio_stream_labels(&streams),
        strings(&["Audio 0  eng  TrueHD", "Audio 1  deu  Unknown"])
    );
    assert_eq!(default_audio_streams(&streams, &vec![]), vec![true, true]);
    assert_eq!(default_audio_streams(&streams, &strings(&["deu"])), vec![false, true]);
    assert_eq!(audio_action_prompt(1, &streams[1]), "Action for audio 1 (deu)");
    assert_eq!(
        audio_selection(&streams[1], 0),
        select(1, AudioSelectionAction::EncodeAac)
    );
    assert_eq!(audio_selection(&streams[1], 1), select(1, AudioSelectionAction::Copy));
    let subs = vec![subtitle(4, "eng"), subtitle(6, "deu")];
    assert_eq!(
        subtitle_stream_labels(&subs),
        strings(&["Subtitle 0  eng", "Subtitle 1  deu"])
    );
    assert_eq!(default_subtitle_streams(&subs, &strings(&["fra"])), vec![false, false]);
    assert_eq!(selected_subtitles(&subs, &vec![1, 0]), vec![6, 4]);
    assert_eq!(format_coding_type(0x86), "DTS-HD MA");
    assert_eq!(format_coding_type(0xA2), "DTS-HD 2nd");
}

#[test]
fn lookups_follow_addresses_of_their_kind() {
    let url = "https://www.themoviedb.org/movie/550-fight-club";
    assert_eq!(plan_lookup(url, TmdbUrlType::Movie), Lookup::Fetch(550));
    assert_eq!(plan_lookup(url, TmdbUrlType::Tv), Lookup::Search);
    assert_eq!(plan_lookup("fight club", TmdbUrlType::Movie), Lookup::Search);
    assert_eq!(movie_choices(&vec![movie()]), Ok(strings(&["Fight: Club (1999)"])));
    assert_eq!(movie_choices(&vec![]), Err("No results found".to_string()));
    assert_eq!(show_choices(&vec![show()]), Ok(strings(&["Dark"])));
    assert_eq!(show_choices(&vec![]), Err("No results found".to_string()));
}

#[test]
fn seasons_are_chosen() {
    let mut dark = show();
    assert_eq!(
        season_choices(&dark),
        Ok(strings(&["Season 1 (10 episodes)", "Two (8 episodes)"]))
    );
    assert_eq!(
        season_directory(&config(), &dark, 2).as_deref(),
        Some("/shows/Dark [tmdbid-1396]/Season 02")
    );
    assert_eq!(suggested_episode(&None), 1);
    assert_eq!(suggested_episode(&Some(strings(&["Dark S02E07.mkv"]))), 8);
    let choice = show_choice(vec![3], show(), 1, 8, vec![], vec![2]);
    match choice {
        MediaChoice::Show(s) => assert_eq!((s.season, s.start_episode), (2, 8)),
        MediaChoice::Movie(_) => panic!(),
    }
    match movie_choice(&analysed(7, 1, &[]), movie(), vec![], vec![1]) {
        MediaChoice::Movie(m) => assert_eq!((m.title_idx, m.tmdb.id), (7, 550)),
        MediaChoice::Show(_) => panic!(),
    }
    dark.seasons.clear();
    assert_eq!(season_choices(&dark), Err("No seasons found for this show".to_string()));
}

#[test]
fn a_token_is_needed() {
    let mut c = config();
    assert_eq!(
        required_token(&c).unwrap_err(),
        "TMDB token not configured. Run `config init` first."
    );
    c.tmdb_token = Some("t".to_string());
    assert_eq!(required_token(&c), Ok("t".to_string()));
}
