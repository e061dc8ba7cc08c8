use discrip::cli::{
    config_from_answers, container_for, init_path, overwrite_prompt, parse_comma_list,
    transcode_job, Commands, ConfigAction, InitAnswers, JobsAction, RipOverrides, TranscodeArgs,
};
use discrip::config::{
    default_worker_name, Config, ConfigError, ConfigFile, LanguageConfig, TranscodeConfig,
};
use discrip::transcode::config::{AudioAction, ContainerFormat, VideoCodec, VideoConfig};

#[test]
fn defaults_stand_where_nothing_is_said() {
    let c = Config::default_for("host".to_string());
    assert_eq!(c.bd_path, "/dev/sr0");
    assert_eq!(c.temp_dir, "/var/tmp");
    assert!(!c.eject_on_complete);
    assert_eq!(c.transcode.video_codec, "copy");
    assert_eq!(c.languages.player_language, "eng");
    assert_eq!(c.distributed.worker_name, "host");
    assert_eq!(c.distributed.poll_interval_secs, 30);
    assert_eq!(c.distributed.max_concurrent_jobs, 1);
    assert_eq!(c.distributed.stale_lock_timeout_secs, 3600);
    assert_eq!(c.distributed.max_retries, 3);
    assert!(c.distributed.cleanup_raw_media);
    assert_eq!(TranscodeConfig::default().crf, None);
    assert!(LanguageConfig::default().audio.is_empty());
}

#[test]
fn worker_names_come_from_the_machine() {
    assert_eq!(default_worker_name(0, b"box\0rest"), "box");
    assert_eq!(default_worker_name(0, b"box"), "box");
    assert_eq!(default_worker_name(0, b"b\xffx\0"), "b\u{fffd}x");
    assert_eq!(default_worker_name(-1, b"box\0"), "unknown");
}

#[test]
fn unusable_files_fall_back_with_a_warning() {
    let (c, warning) = Config::load_or_default(ConfigFile::Missing, "w".to_string());
    assert_eq!(c.distributed.worker_name, "w");
    assert_eq!(warning, None);
    let mut own = Config::default_for("v".to_string());
    own.bd_path = "/x".to_string();
    let (c, warning) = Config::load_or_default(ConfigFile::Loaded(own), "w".to_string());
    assert_eq!((c.bd_path.as_str(), warning), ("/x", None));
    let (c, warning) = Config::load_or_default(
        ConfigFile::Unusable {
            path: "/c.toml".to_string(),
            error: ConfigError::Parse("bad".to_string()),
        },
        "w".to_string(),
    );
    assert_eq!(c.bd_path, "/dev/sr0");
    assert_eq!(
        warning.as_deref(),
        Some("Warning: failed to load config from /c.toml: Config parse error: bad")
    );
    assert_eq!(ConfigError::Io("x".to_string()).message(), "Config IO error: x");
    assert_eq!(ConfigError::Serialize("x".to_string()).message(), "Config serialize error: x");
}

#[test]
fn the_usual_path_is_below_the_configuration_directory() {
    assert_eq!(
        Config::default_path(Some("/home/u/.config")).as_deref(),
        Some("/home/u/.config/bluray-rip/config.toml")
    );
    assert_eq!(Config::default_path(None), None);
    assert_eq!(Config::chosen_path(Some("/a"), Some("/b".to_string())).as_deref(), Some("/a"));
    assert_eq!(Config::chosen_path(None, Some("/b".to_string())).as_deref(), Some("/b"));
    assert_eq!(init_path(None, None), Err("Could not determine config path".to_string()));
    assert_eq!(init_path(Some("/a"), None), Ok("/a".to_string()));
    assert_eq!(overwrite_prompt("/a"), "Config already exists at /a. Overwrite?");
}

#[test]
fn video_settings_come_from_the_configuration() {
    let video = VideoConfig::from_transcode_config(&TranscodeConfig {
        video_codec: "av1".to_string(),
        crf: Some(30),
        preset: Some("8".to_string()),
        audio_bitrate: None,
    });
    assert_eq!(video.codec, VideoCodec::Av1);
    assert_eq!(video.crf, Some(30));
    assert_eq!(video.preset.as_deref(), Some("8"));
    assert_eq!(video.source_stream, None);
}

fn args(output: &str) -> TranscodeArgs {
    TranscodeArgs {
        input: "in.m2ts".to_string(),
        output: output.to_string(),
        video_codec: "h264".to_string(),
        crf: Some(20),
        preset: None,
        audio_copy: vec![1, 2],
        audio_aac: vec![3],
        subtitles: vec![5],
    }
}

#[test]
fn transcode_arguments_become_a_job() {
    let job = transcode_job(&args("out.mp4"));
    assert_eq!(job.container, ContainerFormat::Mp4);
    assert_eq!(job.video.codec, VideoCodec::H264);
    assert_eq!(job.video.crf, Some(20));
    let sources: Vec<usize> = job.audio_tracks.iter().map(|a| a.source_stream).collect();
    assert_eq!(sources, vec![1, 2, 3]);
    assert!(matches!(job.audio_tracks[1].action, AudioAction::Copy));
    assert!(matches!(
        &job.audio_tracks[2].action,
        AudioAction::Encode { codec_name, bitrate: None, .. } if codec_name == "aac"
    ));
    assert_eq!(job.subtitle_tracks[0].source_stream, 5);
    assert_eq!(container_for("out.mkv"), ContainerFormat::Mkv);
    assert_eq!(container_for("mp4"), ContainerFormat::Mkv);
    assert_eq!(container_for(".mp4"), ContainerFormat::Mp4);
    assert_eq!(container_for("out.MP4"), ContainerFormat::Mkv);
}

#[test]
fn commands_settle_their_configuration() {
    let rip = Commands::Rip {
        config: Some("/c".to_string()),
        overrides: RipOverrides {
            bd_path: Some("/iso".to_string()),
            video_codec: None,
            crf: Some(18),
            preset: None,
            no_eject: true,
        },
    };
    assert_eq!(rip.config_path(), Some(Some("/c".to_string())));
    let mut base = Config::default_for("w".to_string());
    base.eject_on_complete = true;
    base.transcode.preset = Some("slow".to_string());
    let c = rip.effective_config(base);
    assert_eq!(c.bd_path, "/iso");
    assert_eq!(c.transcode.video_codec, "copy");
    assert_eq!(c.transcode.crf, Some(18));
    assert_eq!(c.transcode.preset.as_deref(), Some("slow"));
    assert!(!c.eject_on_complete);
    let again = rip.effective_config(c);
    assert_eq!(again.bd_path, "/iso");
    let create = Commands::CreateJobs { config: None, bd_path: Some("/d".to_string()) };
    assert_eq!(create.config_path(), Some(None));
    assert_eq!(create.effective_config(again).bd_path, "/d");
    assert_eq!(Commands::DiscInfo { bd_path: "/d".to_string() }.config_path(), None);
    assert_eq!(Commands::Config(ConfigAction::Init { config: None }).config_path(), None);
    assert_eq!(Commands::Jobs(JobsAction::List { config: None }).config_path(), Some(None));
}

#[test]
fn comma_lists_are_trimmed() {
    assert_eq!(parse_comma_list(" eng , deu,,  "), vec!["eng", "deu"]);
    assert!(parse_comma_list("").is_empty());
}

#[test]
fn answers_become_a_configuration() {
    let c = config_from_answers(
        &InitAnswers {
            movie_dir: "/m".to_string(),
            show_dir: String::new(),
            tmdb_token: String::new(),
            bd_path: "/dev/sr1".to_string(),
            video_codec: "h265".to_string(),
            crf: "21".to_string(),
            preset: "slow".to_string(),
            audio_langs: "eng,deu".to_string(),
            subtitle_langs: String::new(),
            player_language: "deu".to_string(),
        },
        "w".to_string(),
    );
    assert_eq!(c.movie_dir.as_deref(), Some("/m"));
    assert_eq!(c.show_dir, None);
    assert_eq!(c.tmdb_token, None);
    assert_eq!(c.bd_path, "/dev/sr1");
    assert_eq!(c.transcode.crf, Some(21));
    assert_eq!(c.transcode.preset.as_deref(), Some("slow"));
    assert_eq!(c.languages.audio, vec!["eng", "deu"]);
    assert!(c.languages.subtitle.is_empty());
    assert_eq!(c.languages.player_language, "deu");
    assert_eq!(c.distributed.worker_name, "w");
}
