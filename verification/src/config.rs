//! The configuration file: what it holds and what stands where it is silent.
use vstd::prelude::*;

use crate::{list, text};

verus! {

#[derive(Debug, Clone)]
pub struct Config {
    pub movie_dir: Option<String>,
    pub show_dir: Option<String>,
    pub tmdb_token: Option<String>,
    /// Disc device path (Blu-ray or DVD); also accepts ISOs and directories.
    pub bd_path: String,
    pub temp_dir: String,
    pub eject_on_complete: bool,
    pub transcode: TranscodeConfig,
    pub languages: LanguageConfig,
    pub distributed: DistributedConfig,
}

/// What a `Config` says.
pub ghost struct ConfigModel {
    pub movie_dir: Option<Seq<char>>,
    pub show_dir: Option<Seq<char>>,
    pub tmdb_token: Option<Seq<char>>,
    pub bd_path: Seq<char>,
    pub temp_dir: Seq<char>,
    pub eject_on_complete: bool,
    pub transcode: TranscodeConfigModel,
    pub languages: LanguageConfigModel,
    pub distributed: DistributedConfigModel,
}

impl DeepView for Config {
    type V = ConfigModel;

    open spec fn deep_view(&self) -> ConfigModel {
        ConfigModel {
            movie_dir: self.movie_dir.deep_view(),
            show_dir: self.show_dir.deep_view(),
            tmdb_token: self.tmdb_token.deep_view(),
            bd_path: self.bd_path@,
            temp_dir: self.temp_dir@,
            eject_on_complete: self.eject_on_complete,
            transcode: self.transcode.deep_view(),
            languages: self.languages.deep_view(),
            distributed: self.distributed.deep_view(),
        }
    }
}

#[derive(Debug, Clone)]
pub struct TranscodeConfig {
    pub video_codec: String,
    pub crf: Option<u32>,
    pub preset: Option<String>,
    pub audio_bitrate: Option<u64>,
}

/// What a `TranscodeConfig` says.
pub ghost struct TranscodeConfigModel {
    pub video_codec: Seq<char>,
    pub crf: Option<u32>,
    pub preset: Option<Seq<char>>,
    pub audio_bitrate: Option<u64>,
}

impl DeepView for TranscodeConfig {
    type V = TranscodeConfigModel;

    open spec fn deep_view(&self) -> TranscodeConfigModel {
        TranscodeConfigModel {
            video_codec: self.video_codec@,
            crf: self.crf,
            preset: self.preset.deep_view(),
            audio_bitrate: self.audio_bitrate,
        }
    }
}

#[derive(Debug, Clone)]
pub struct LanguageConfig {
    pub audio: Vec<String>,
    pub subtitle: Vec<String>,
    pub player_language: String,
}

/// What a `LanguageConfig` says.
pub ghost struct LanguageConfigModel {
    pub audio: Seq<Seq<char>>,
    pub subtitle: Seq<Seq<char>>,
    pub player_language: Seq<char>,
}

impl DeepView for LanguageConfig {
    type V = LanguageConfigModel;

    open spec fn deep_view(&self) -> LanguageConfigModel {
        LanguageConfigModel {
            audio: self.audio.deep_view(),
            subtitle: self.subtitle.deep_view(),
            player_language: self.player_language@,
        }
    }
}

#[derive(Debug, Clone)]
pub struct DistributedConfig {
    pub shared_dir: Option<String>,
    pub worker_name: String,
    pub poll_interval_secs: u64,
    pub max_concurrent_jobs: u32,
    pub stale_lock_timeout_secs: u64,
    pub max_retries: u32,
    pub cleanup_raw_media: bool,
}

/// What a `DistributedConfig` says.
pub ghost struct DistributedConfigModel {
    pub shared_dir: Option<Seq<char>>,
    pub worker_name: Seq<char>,
    pub poll_interval_secs: u64,
    pub max_concurrent_jobs: u32,
    pub stale_lock_timeout_secs: u64,
    pub max_retries: u32,
    pub cleanup_raw_media: bool,
}

impl DeepView for DistributedConfig {
    type V = DistributedConfigModel;

    open spec fn deep_view(&self) -> DistributedConfigModel {
        DistributedConfigModel {
            shared_dir: self.shared_dir.deep_view(),
            worker_name: self.worker_name@,
            poll_interval_secs: self.poll_interval_secs,
            max_concurrent_jobs: self.max_concurrent_jobs,
            stale_lock_timeout_secs: self.stale_lock_timeout_secs,
            max_retries: self.max_retries,
            cleanup_raw_media: self.cleanup_raw_media,
        }
    }
}

/// What stands where the configuration says nothing of transcoding: streams are
/// copied.
pub open spec fn default_transcode() -> TranscodeConfigModel {
    TranscodeConfigModel { video_codec: "copy"@, crf: None, preset: None, audio_bitrate: None }
}

impl Default for TranscodeConfig {
    fn default() -> (r: Self)
        ensures
            r.deep_view() == default_transcode(),
    {
        TranscodeConfig {
            video_codec: default_video_codec(),
            crf: None,
            preset: None,
            audio_bitrate: None,
        }
    }
}

/// What stands where the configuration says nothing of languages: no preference.
pub open spec fn default_languages() -> LanguageConfigModel {
    LanguageConfigModel { audio: Seq::empty(), subtitle: Seq::empty(), player_language: "eng"@ }
}

impl Default for LanguageConfig {
    fn default() -> (r: Self)
        ensures
            r.deep_view() == default_languages(),
    {
        LanguageConfig {
            audio: list::empty(),
            subtitle: list::empty(),
            player_language: default_player_language(),
        }
    }
}

/// What stands where the configuration says nothing of working together.
pub open spec fn default_distributed(worker_name: Seq<char>) -> DistributedConfigModel {
    DistributedConfigModel {
        shared_dir: None,
        worker_name,
        poll_interval_secs: 30,
        max_concurrent_jobs: 1,
        stale_lock_timeout_secs: 3600,
        max_retries: 3,
        cleanup_raw_media: true,
    }
}

impl DistributedConfig {
    /// The defaults of a machine with a name.
    pub fn default_for(worker_name: String) -> (r: Self)
        ensures
            r.deep_view() == default_distributed(worker_name@),
    {
        DistributedConfig {
            shared_dir: None,
            worker_name,
            poll_interval_secs: default_poll_interval(),
            max_concurrent_jobs: default_max_concurrent(),
            stale_lock_timeout_secs: default_stale_timeout(),
            max_retries: default_max_retries(),
            cleanup_raw_media: default_cleanup_raw(),
        }
    }
}

/// The configuration where there is none.
pub open spec fn default_config(worker_name: Seq<char>) -> ConfigModel {
    ConfigModel {
        movie_dir: None,
        show_dir: None,
        tmdb_token: None,
        bd_path: "/dev/sr0"@,
        temp_dir: "/var/tmp"@,
        eject_on_complete: false,
        transcode: default_transcode(),
        languages: default_languages(),
        distributed: default_distributed(worker_name),
    }
}

pub fn default_bd_path() -> (r: String)
    ensures
        r@ == "/dev/sr0"@,
{
    "/dev/sr0".to_owned()
}

pub fn default_temp_dir() -> (r: String)
    ensures
        r@ == "/var/tmp"@,
{
    // Avoid /tmp — it's often tmpfs with limited space, too small for Blu-ray rips.
    // /var/tmp persists across reboots and is typically on the real filesystem.
    "/var/tmp".to_owned()
}

pub fn default_video_codec() -> (r: String)
    ensures
        r@ == "copy"@,
{
    "copy".to_owned()
}

pub fn default_player_language() -> (r: String)
    ensures
        r@ == "eng"@,
{
    "eng".to_owned()
}

pub fn default_poll_interval() -> (r: u64)
    ensures
        r == 30,
{
    30
}

pub fn default_max_concurrent() -> (r: u32)
    ensures
        r == 1,
{
    1
}

pub fn default_stale_timeout() -> (r: u64)
    ensures
        r == 3600,
{
    3600
}

pub fn default_max_retries() -> (r: u32)
    ensures
        r == 3,
{
    3
}

pub fn default_cleanup_raw() -> (r: bool)
    ensures
        r,
{
    true
}

/// A machine's own name as the system call gives it: its result, and the bytes
/// that it filled in, ended by a zero.
pub open spec fn host_name(ret: i32, buf: Seq<u8>) -> Seq<char> {
    if ret == 0 {
        text::lossy_text(text::before_zero(buf))
    } else {
        "unknown"@
    }
}

/// The name that a worker goes by unless it is given one: the machine's, or
/// `unknown` where that cannot be had.
pub fn default_worker_name(ret: i32, buf: &[u8]) -> (r: String)
    ensures
        r@ == host_name(ret, buf@),
        ret == 0 && vstd::utf8::valid_utf8(text::before_zero(buf@)) ==> r@
            == vstd::utf8::decode_utf8(text::before_zero(buf@)),
{
    if ret == 0 {
        text::decode_lossy(&text::head_before_zero(buf))
    } else {
        "unknown".to_owned()
    }
}

/// Why the configuration file cannot be used, in the words of what failed.
#[derive(Debug)]
pub enum ConfigError {
    Io(String),
    Parse(String),
    Serialize(String),
}

impl ConfigError {
    /// The text shown to the user.
    pub open spec fn message_text(self) -> Seq<char> {
        match self {
            ConfigError::Io(e) => "Config IO error: "@ + e@,
            ConfigError::Parse(e) => "Config parse error: "@ + e@,
            ConfigError::Serialize(e) => "Config serialize error: "@ + e@,
        }
    }

    /// The text shown to the user.
    pub fn message(&self) -> (r: String)
        ensures
            r@ == self.message_text(),
    {
        match self {
            ConfigError::Io(e) => "Config IO error: ".to_owned().concat(e.as_str()),
            ConfigError::Parse(e) => "Config parse error: ".to_owned().concat(e.as_str()),
            ConfigError::Serialize(e) => "Config serialize error: ".to_owned().concat(e.as_str()),
        }
    }
}

/// What came of reading the configuration file.
#[derive(Debug)]
pub enum ConfigFile {
    /// No path is known, or nothing stands there.
    Missing,
    Loaded(Config),
    Unusable { path: String, error: ConfigError },
}

/// What is said of a configuration file that cannot be used.
pub open spec fn unusable_text(path: Seq<char>, error: ConfigError) -> Seq<char> {
    "Warning: failed to load config from "@ + path + ": "@ + error.message_text()
}

impl Config {
    /// The defaults on a machine with a name.
    pub fn default_for(worker_name: String) -> (r: Self)
        ensures
            r.deep_view() == default_config(worker_name@),
    {
        Config {
            movie_dir: None,
            show_dir: None,
            tmdb_token: None,
            bd_path: default_bd_path(),
            temp_dir: default_temp_dir(),
            eject_on_complete: false,
            transcode: TranscodeConfig::default(),
            languages: LanguageConfig::default(),
            distributed: DistributedConfig::default_for(worker_name),
        }
    }

    /// Where the configuration file stands below the user's configuration
    /// directory.
    pub fn default_path(config_dir: Option<&str>) -> (r: Option<String>)
        ensures
            match config_dir {
                Some(dir) => r matches Some(path) && path@ == text::joined(
                    text::joined(dir@, "bluray-rip"@),
                    "config.toml"@,
                ),
                None => r is None,
            },
    {
        match config_dir {
            Some(dir) => {
                let dir = text::join_path(dir, "bluray-rip");
                Some(text::join_path(dir.as_str(), "config.toml"))
            },
            None => None,
        }
    }

    /// The path that was asked for, else the usual one.
    pub fn chosen_path(path: Option<&str>, default_path: Option<String>) -> (r: Option<String>)
        ensures
            match path {
                Some(path) => r matches Some(chosen) && chosen@ == path@,
                None => r == default_path,
            },
    {
        match path {
            Some(path) => Some(path.to_owned()),
            None => default_path,
        }
    }

    /// The configuration that was read, else the defaults, with a warning where a
    /// file is there but cannot be used.
    pub fn load_or_default(file: ConfigFile, worker_name: String) -> (r: (Self, Option<String>))
        ensures
            match file {
                ConfigFile::Missing => r.0.deep_view() == default_config(worker_name@)
                    && r.1 is None,
                ConfigFile::Loaded(config) => r.0 == config && r.1 is None,
                ConfigFile::Unusable { path, error } => r.0.deep_view() == default_config(
                    worker_name@,
                ) && (r.1 matches Some(warning) && warning@ == unusable_text(path@, error)),
            },
    {
        match file {
            ConfigFile::Missing => (Config::default_for(worker_name), None),
            ConfigFile::Loaded(config) => (config, None),
            ConfigFile::Unusable { path, error } => {
                let mut warning = "Warning: failed to load config from ".to_owned();
                warning.append(path.as_str());
                warning.append(": ");
                warning.append(error.message().as_str());
                (Config::default_for(worker_name), Some(warning))
            },
        }
    }
}

/// What is not configured has its usual value: the first drive, temporary files in
/// `/var/tmp`, the disc kept in, the video copied, every language taken, and three
/// tries for a job.
pub proof fn usual_configuration(worker_name: Seq<char>)
    ensures
        ({
            let c = default_config(worker_name);
            &&& c.movie_dir is None
            &&& c.show_dir is None
            &&& c.tmdb_token is None
            &&& c.bd_path == "/dev/sr0"@
            &&& c.temp_dir == "/var/tmp"@
            &&& !c.eject_on_complete
            &&& c.transcode.video_codec == "copy"@
            &&& c.transcode.crf is None
            &&& c.transcode.preset is None
            &&& c.transcode.audio_bitrate is None
            &&& c.languages.audio.len() == 0
            &&& c.languages.subtitle.len() == 0
            &&& c.languages.player_language == "eng"@
            &&& c.distributed.shared_dir is None
            &&& c.distributed.worker_name == worker_name
            &&& c.distributed.poll_interval_secs == 30
            &&& c.distributed.max_concurrent_jobs == 1
            &&& c.distributed.stale_lock_timeout_secs == 3600
            &&& c.distributed.max_retries == 3
            &&& c.distributed.cleanup_raw_media
        }),
{
}

/// A worker is named after its host, up to the first zero byte; where the host has no
/// name, it is `unknown`.
pub proof fn workers_are_named_after_their_host(ret: i32, name: Seq<u8>, rest: Seq<u8>)
    requires
        !name.contains(0u8),
    ensures
        ret != 0 ==> host_name(ret, name.push(0u8) + rest) == "unknown"@,
        host_name(0, name.push(0u8) + rest) == text::lossy_text(name),
{
    text::texts_end_at_the_first_zero(name, rest);
}

} // verus!
