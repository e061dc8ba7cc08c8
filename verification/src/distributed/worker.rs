//! A worker: it looks for jobs, claims one at a time and transcodes it.
use vstd::prelude::*;

use super::clock::Timestamp;
use super::fs_ops::{FsStep, SharedDirs};
use super::job::{ContentType, DistributedJob};
use super::manager::Recovery;
use super::{fs_ops, job, manager, reader};
use crate::config::Config;
use crate::rip::{jellyfin, tui, StreamConfigs};
use crate::text;
use crate::transcode::TranscodeJob;

verus! {

/// Seconds between two heartbeats.
pub const HEARTBEAT_SECS: u64 = 30;

// --- the course of a worker ---

/// What a worker is about to do.
#[derive(Debug, Clone, Copy, PartialEq, Eq, Structural)]
pub enum WorkerPhase {
    /// A new round starts.
    Start,
    /// The pending jobs are being listed.
    Listing,
    /// Of `total` listed jobs, the one at `next` is up.
    Claiming { next: usize, total: usize },
    /// The job at `next` is being claimed.
    Asking { next: usize, total: usize },
    /// The round is over; `left` seconds until the next one.
    Sleeping { left: u64 },
    Stopped,
}

/// What is to be done for a worker.
#[derive(Debug, Clone, Copy, PartialEq, Eq, Structural)]
pub enum WorkerAction {
    /// Recover stale jobs, then list the pending ones.
    Poll,
    /// Try to claim the listed job at this place; run it where that succeeds.
    Claim(usize),
    SleepSecond,
    Stop,
}

/// The next action, and the phase in which its outcome is awaited. A shutdown is
/// heeded before each round, before each claim and before each second of sleep.
pub open spec fn next_step(phase: WorkerPhase, shutdown: bool, interval: u64) -> (
    WorkerPhase,
    WorkerAction,
)
    decreases
            match phase {
                WorkerPhase::Claiming { .. } => 2int,
                WorkerPhase::Sleeping { .. } => 1int,
                _ => 0int,
            },
{
    match phase {
        WorkerPhase::Start => if shutdown {
            (WorkerPhase::Stopped, WorkerAction::Stop)
        } else {
            (WorkerPhase::Listing, WorkerAction::Poll)
        },
        WorkerPhase::Claiming { next, total } => if next >= total || shutdown {
            next_step(WorkerPhase::Sleeping { left: interval }, shutdown, interval)
        } else {
            (WorkerPhase::Asking { next, total }, WorkerAction::Claim(next))
        },
        WorkerPhase::Sleeping { left } => if left == 0 || shutdown {
            next_step(WorkerPhase::Start, shutdown, interval)
        } else {
            (WorkerPhase::Sleeping { left: (left - 1) as u64 }, WorkerAction::SleepSecond)
        },
        WorkerPhase::Listing => (phase, WorkerAction::Poll),
        WorkerPhase::Asking { next, .. } => (phase, WorkerAction::Claim(next)),
        WorkerPhase::Stopped => (WorkerPhase::Stopped, WorkerAction::Stop),
    }
}

/// A worker that polls every `interval` seconds.
#[derive(Debug, Clone, Copy, PartialEq, Eq, Structural)]
pub struct Worker {
    pub phase: WorkerPhase,
    pub interval: u64,
}

impl Worker {
    pub fn new(interval: u64) -> (r: Self)
        ensures
            r == (Worker { phase: WorkerPhase::Start, interval }),
    {
        Worker { phase: WorkerPhase::Start, interval }
    }

    /// Decides what comes next.
    pub fn next(&mut self, shutdown: bool) -> (r: WorkerAction)
        ensures
            (final(self).phase, r) == next_step(old(self).phase, shutdown, old(self).interval),
            final(self).interval == old(self).interval,
    {
        proof {
            reveal_with_fuel(next_step, 3);
        }
        if let WorkerPhase::Claiming { next, total } = self.phase {
            if next < total && !shutdown {
                self.phase = WorkerPhase::Asking { next, total };
                return WorkerAction::Claim(next);
            }
            self.phase = WorkerPhase::Sleeping { left: self.interval };
        }
        if let WorkerPhase::Sleeping { left } = self.phase {
            if left > 0 && !shutdown {
                self.phase = WorkerPhase::Sleeping { left: left - 1 };
                return WorkerAction::SleepSecond;
            }
            self.phase = WorkerPhase::Start;
        }
        match self.phase {
            WorkerPhase::Start => {
                if shutdown {
                    self.phase = WorkerPhase::Stopped;
                    WorkerAction::Stop
                } else {
                    self.phase = WorkerPhase::Listing;
                    WorkerAction::Poll
                }
            },
            WorkerPhase::Listing => WorkerAction::Poll,
            WorkerPhase::Asking { next, .. } => WorkerAction::Claim(next),
            _ => WorkerAction::Stop,
        }
    }

    /// The pending jobs have been listed.
    pub fn listed(&mut self, total: usize)
        requires
            old(self).phase is Listing,
        ensures
            *final(self) == (Worker {
                phase: WorkerPhase::Claiming { next: 0, total },
                ..*old(self)
            }),
    {
        self.phase = WorkerPhase::Claiming { next: 0, total };
    }

    /// The claim has been settled: another worker has the job, or this one has run
    /// it.
    pub fn settled(&mut self)
        requires
            old(self).phase matches WorkerPhase::Asking { next, total } && next < total,
        ensures
            old(self).phase matches WorkerPhase::Asking { next, total } && *final(self) == (
            Worker {
                phase: WorkerPhase::Claiming { next: (next + 1) as usize, total },
                ..*old(self)
            }),
    {
        if let WorkerPhase::Asking { next, total } = self.phase {
            self.phase = WorkerPhase::Claiming { next: next + 1, total };
        }
    }
}

/// Once a shutdown is asked for, a worker that is not in the middle of something
/// claims no further job, sleeps no further second and stops with its next step.
pub proof fn shutdown_stops_the_worker(phase: WorkerPhase, interval: u64)
    requires
        !(phase is Listing),
        !(phase is Asking),
    ensures
        next_step(phase, true, interval) == (WorkerPhase::Stopped, WorkerAction::Stop),
{
    reveal_with_fuel(next_step, 3);
}

/// Without a shutdown a worker never stops.
pub proof fn workers_run_until_shutdown(phase: WorkerPhase, interval: u64)
    requires
        !(phase is Stopped),
    ensures
        next_step(phase, false, interval).1 != WorkerAction::Stop,
{
    reveal_with_fuel(next_step, 3);
}

/// The listed jobs are tried in order, each once, and then the worker sleeps, or
/// starts over where it does not sleep at all.
pub proof fn listed_jobs_are_tried_in_order(next: usize, total: usize, interval: u64)
    ensures
        next < total ==> next_step(WorkerPhase::Claiming { next, total }, false, interval) == (
            WorkerPhase::Asking { next, total },
            WorkerAction::Claim(next),
        ),
        next >= total && interval > 0 ==> next_step(
            WorkerPhase::Claiming { next, total },
            false,
            interval,
        ) == (WorkerPhase::Sleeping { left: (interval - 1) as u64 }, WorkerAction::SleepSecond),
        next >= total && interval == 0 ==> next_step(
            WorkerPhase::Claiming { next, total },
            false,
            interval,
        ) == (WorkerPhase::Listing, WorkerAction::Poll),
{
    reveal_with_fuel(next_step, 3);
}

// --- heartbeats ---

/// What a heartbeat waits for.
#[derive(Debug, Clone, Copy, PartialEq, Eq, Structural)]
pub enum PulseAction {
    /// Write a heartbeat.
    Beat,
    WaitSecond,
    Stop,
}

/// The heartbeat of a worker: how many seconds ago it beat last.
#[derive(Debug, Clone, Copy, PartialEq, Eq, Structural)]
pub struct Pulse {
    pub since: u64,
}

/// What comes next, and the seconds since the last beat then. Once the job is done
/// nothing more is written and no further second is waited.
pub open spec fn next_pulse(since: u64, done: bool) -> (u64, PulseAction) {
    if done {
        (since, PulseAction::Stop)
    } else if since >= HEARTBEAT_SECS {
        (0, PulseAction::Beat)
    } else {
        ((since + 1) as u64, PulseAction::WaitSecond)
    }
}

impl Pulse {
    /// A heartbeat that is due at once.
    pub fn new() -> (r: Self)
        ensures
            r.since == HEARTBEAT_SECS,
    {
        Pulse { since: HEARTBEAT_SECS }
    }

    /// Decides what comes next.
    pub fn next(&mut self, done: bool) -> (r: PulseAction)
        ensures
            (final(self).since, r) == next_pulse(old(self).since, done),
    {
        if done {
            PulseAction::Stop
        } else if self.since >= HEARTBEAT_SECS {
            self.since = 0;
            PulseAction::Beat
        } else {
            self.since = self.since + 1;
            PulseAction::WaitSecond
        }
    }
}

/// The seconds since the last beat after `n` decisions without an end.
pub open spec fn since_after(since: u64, n: nat) -> u64
    decreases n,
{
    if n == 0 {
        since
    } else {
        next_pulse(since_after(since, (n - 1) as nat), false).0
    }
}

/// While the job runs, a heartbeat is followed by waiting for as many seconds as
/// lie between two heartbeats, and then by the next one.
pub proof fn heartbeats_come_in_time(n: nat)
    requires
        n <= HEARTBEAT_SECS,
    ensures
        since_after(0, n) == n,
        n < HEARTBEAT_SECS ==> next_pulse(since_after(0, n), false).1 == PulseAction::WaitSecond,
        n == HEARTBEAT_SECS ==> next_pulse(since_after(0, n), false) == (0u64, PulseAction::Beat),
    decreases n,
{
    if n > 0 {
        heartbeats_come_in_time((n - 1) as nat);
    }
}

// --- running a job ---

/// What is said when a worker starts.
pub fn start_message(worker_name: &str, shared_dir: &str) -> (r: String)
    ensures
        r@ == "Worker '"@ + worker_name@ + "' started, polling "@ + shared_dir@,
{
    let mut message = "Worker '".to_owned();
    message.append(worker_name);
    message.append("' started, polling ");
    message.append(shared_dir);
    message
}

/// What is said when a job has been claimed.
pub fn claimed_message(job: &DistributedJob) -> (r: String)
    ensures
        r@ == "Claimed job "@ + job::id_form(job.id) + " ("@ + job.relative_output_path@ + ")"@,
{
    let mut message = "Claimed job ".to_owned();
    message.append(job.id_text().as_str());
    message.append(" (");
    message.append(job.relative_output_path.as_str());
    message.append(")");
    message
}

/// The directory that a kind of content goes below on this machine.
pub open spec fn base_for(content: ContentType, c: crate::config::ConfigModel) -> Result<
    Seq<char>,
    Seq<char>,
> {
    match content {
        ContentType::Movie => match c.movie_dir {
            Some(dir) => Ok(dir),
            None => Err("movie_dir not configured"@),
        },
        ContentType::Episode => match c.show_dir {
            Some(dir) => Ok(dir),
            None => Err("show_dir not configured"@),
        },
    }
}

/// The directory that a kind of content goes below on this machine.
pub fn output_base(content: ContentType, config: &Config) -> (r: Result<String, String>)
    ensures
        content is Episode ==> match config.show_dir {
            Some(dir) => r matches Ok(d) && d@ == dir@,
            None => r matches Err(m) && m@ == "show_dir not configured"@,
        },
        content is Movie ==> match config.movie_dir {
            Some(dir) => r matches Ok(d) && d@ == dir@,
            None => r matches Err(m) && m@ == "movie_dir not configured"@,
        },
        match r {
            Ok(dir) => base_for(content, config.deep_view()) == Ok::<Seq<char>, Seq<char>>(dir@),
            Err(message) => base_for(content, config.deep_view()) == Err::<Seq<char>, Seq<char>>(
                message@,
            ),
        },
{
    match content {
        ContentType::Movie => match &config.movie_dir {
            Some(dir) => Ok(dir.clone()),
            None => Err("movie_dir not configured".to_owned()),
        },
        ContentType::Episode => match &config.show_dir {
            Some(dir) => Ok(dir.clone()),
            None => Err("show_dir not configured".to_owned()),
        },
    }
}

/// What a worker runs for a job, and where it writes to.
#[derive(Debug)]
pub struct LocalJob {
    pub output_path: String,
    pub job: TranscodeJob,
}

/// What a worker runs for a job, or why it cannot.
pub fn local_job(job: &DistributedJob, dirs: &SharedDirs, config: &Config) -> (r: Result<
    LocalJob,
    String,
>)
    ensures
        job.content_type is Episode ==> match config.show_dir {
            Some(dir) => r matches Ok(local) && local.output_path@ == text::joined(
                dir@,
                job.relative_output_path@,
            ),
            None => r matches Err(m) && m@ == "show_dir not configured"@,
        },
        job.content_type is Movie ==> match config.movie_dir {
            Some(dir) => r matches Ok(local) && local.output_path@ == text::joined(
                dir@,
                job.relative_output_path@,
            ),
            None => r matches Err(m) && m@ == "movie_dir not configured"@,
        },
        match r {
            Ok(local) => base_for(job.content_type, config.deep_view()) matches Ok(base)
                && local.output_path@ == text::joined(base, job.relative_output_path@)
                && local.job.deep_view() == job.deep_view().local_job(dirs.root@, base),
            Err(message) => base_for(job.content_type, config.deep_view()) == Err::<
                Seq<char>,
                Seq<char>,
            >(message@),
        },
{
    match output_base(job.content_type, config) {
        Ok(base) => {
            let output_path = text::join_path(base.as_str(), job.relative_output_path.as_str());
            let job = job.to_transcode_job(dirs.root.as_str(), base.as_str());
            Ok(LocalJob { output_path, job })
        },
        Err(message) => Err(message),
    }
}

/// What follows on the outcome of a job.
#[derive(Debug)]
pub struct JobOutcome {
    pub steps: Vec<FsStep>,
    /// What is said when the steps are done.
    pub message: String,
    /// The media file that goes, unless a job still needs it.
    pub media_file: Option<String>,
}

/// What is said of a job whose attempt failed.
pub open spec fn failure_text(j: job::DistributedJobModel) -> Seq<char> {
    if fs_ops::exhausted(j) {
        "Job "@ + job::id_form(j.id) + " moved to failed after "@ + text::decimal(j.attempt as nat)
            + " attempts"@
    } else {
        "Requeued job "@ + job::id_form(j.id) + " (attempt "@ + manager::attempts(j) + ")"@
    }
}

/// What follows when a job has been transcoded.
pub fn job_succeeded(dirs: &SharedDirs, job: &DistributedJob, config: &Config) -> (r: JobOutcome)
    ensures
        r.steps.deep_view() == fs_ops::completing(*dirs, job.id),
        r.message@ == "Completed job "@ + job::id_form(job.id),
        r.media_file.deep_view() == if config.distributed.cleanup_raw_media {
            Some(job.media_file@)
        } else {
            None
        },
{
    let mut message = "Completed job ".to_owned();
    message.append(job.id_text().as_str());
    let media_file: Option<String> = if config.distributed.cleanup_raw_media {
        Some(job.media_file.clone())
    } else {
        None
    };
    JobOutcome { steps: fs_ops::complete_job(dirs, job.id), message, media_file }
}

/// What is said at once when a job fails.
pub fn failure_message(job: &DistributedJob, error: &str) -> (r: String)
    ensures
        r@ == "Job "@ + job::id_form(job.id) + " failed: "@ + error@,
{
    let mut message = "Job ".to_owned();
    message.append(job.id_text().as_str());
    message.append(" failed: ");
    message.append(error);
    message
}

/// What follows when a job could not be transcoded.
pub fn job_failed(dirs: &SharedDirs, job: &mut DistributedJob, error: &str) -> (r: JobOutcome)
    requires
        old(job).attempt < u32::MAX,
    ensures
        final(job).deep_view() == fs_ops::after_failure(old(job).deep_view(), error@),
        r.steps.deep_view() == fs_ops::moving(
            *dirs,
            fs_ops::next_dir(*dirs, final(job).deep_view()),
            old(job).id,
        ),
        r.message@ == failure_text(final(job).deep_view()),
        r.media_file is None,
{
    let steps = fs_ops::fail_job(dirs, job, error);
    let message = describe_failure(job);
    JobOutcome { steps, message, media_file: None }
}

fn describe_failure(job: &DistributedJob) -> (r: String)
    ensures
        r@ == failure_text(job.deep_view()),
{
    if job.attempt < job.max_retries {
        let mut message = "Requeued job ".to_owned();
        message.append(job.id_text().as_str());
        message.append(" (attempt ");
        manager::push_attempts(&mut message, job);
        message.append(")");
        message
    } else {
        let mut message = "Job ".to_owned();
        message.append(job.id_text().as_str());
        message.append(" moved to failed after ");
        text::push_decimal(&mut message, job.attempt as u64);
        message.append(" attempts");
        message
    }
}

/// What is said of a job whose worker went silent.
pub open spec fn silence_text(j: job::DistributedJobModel) -> Seq<char> {
    if fs_ops::exhausted(j) {
        "Job "@ + job::id_form(j.id) + " moved to failed after "@ + text::decimal(j.attempt as nat)
            + " attempts"@
    } else {
        "Requeued stale job "@ + job::id_form(j.id) + " (attempt "@ + manager::attempts(j) + ")"@
    }
}

/// Recovers a job whose worker went silent. A job that may not be tried again
/// leaves the active ones even where it cannot be written to the failed ones.
pub fn recover_stale_job(dirs: &SharedDirs, job: &mut DistributedJob) -> (r: Recovery)
    requires
        old(job).attempt < u32::MAX,
    ensures
        final(job).deep_view() == fs_ops::after_silence(old(job).deep_view()),
        r.announcement@ == "Recovering stale job "@ + job::id_form(old(job).id)
            + " (no heartbeat)"@,
        r.writing.deep_view() == fs_ops::writing(
            fs_ops::next_dir(*dirs, final(job).deep_view()),
            old(job).id,
        ),
        r.clearing.deep_view() == fs_ops::clearing(*dirs, old(job).id),
        r.clears_anyway == fs_ops::exhausted(final(job).deep_view()),
        r.outcome@ == silence_text(final(job).deep_view()),
{
    let mut announcement = "Recovering stale job ".to_owned();
    announcement.append(job.id_text().as_str());
    announcement.append(" (no heartbeat)");
    let (writing, clearing) = fs_ops::recover_job(dirs, job);
    let clears_anyway: bool = job.attempt >= job.max_retries;
    let mut outcome: String;
    if job.attempt >= job.max_retries {
        outcome = "Job ".to_owned();
        outcome.append(job.id_text().as_str());
        outcome.append(" moved to failed after ");
        text::push_decimal(&mut outcome, job.attempt as u64);
        outcome.append(" attempts");
    } else {
        outcome = "Requeued stale job ".to_owned();
        outcome.append(job.id_text().as_str());
        outcome.append(" (attempt ");
        manager::push_attempts(&mut outcome, job);
        outcome.append(")");
    }
    Recovery { announcement, writing, clearing, clears_anyway, outcome }
}

/// A worker writes an episode below its show directory and a movie below its movie
/// directory, whatever the other directory is, at the job's relative path; without
/// the directory it says which one is missing. It reads the media file from the
/// shared directory and takes the rest of the job as it is.
pub proof fn workers_write_below_their_directories(
    j: job::DistributedJobModel,
    c: crate::config::ConfigModel,
    shared_dir: Seq<char>,
    dir: Seq<char>,
)
    ensures
        j.content_type is Episode && c.show_dir == Some(dir) ==> base_for(j.content_type, c)
            == Ok::<Seq<char>, Seq<char>>(dir),
        j.content_type is Movie && c.movie_dir == Some(dir) ==> base_for(j.content_type, c)
            == Ok::<Seq<char>, Seq<char>>(dir),
        j.content_type is Episode && c.show_dir is None ==> base_for(j.content_type, c) == Err::<
            Seq<char>,
            Seq<char>,
        >("show_dir not configured"@),
        j.content_type is Movie && c.movie_dir is None ==> base_for(j.content_type, c) == Err::<
            Seq<char>,
            Seq<char>,
        >("movie_dir not configured"@),
        ({
            let local = j.local_job(shared_dir, dir);
            &&& local.output_path == text::joined(dir, j.relative_output_path)
            &&& local.input_path == text::joined(text::joined(shared_dir, "media"@), j.media_file)
            &&& local.container == j.container
            &&& local.video == j.video
            &&& local.audio_tracks == j.audio_tracks
            &&& local.subtitle_tracks == j.subtitle_tracks
            &&& local.chapters == j.chapters
            &&& local.metadata == j.metadata
        }),
{
}

/// A worker with a show directory writes the job of an episode to where ripping the
/// episode there would have put it, whatever its movie directory is and however the
/// reader was configured.
pub proof fn episodes_are_written_where_rips_put_them(
    target: reader::MediaTarget,
    streams: StreamConfigs,
    choice: tui::ShowChoiceModel,
    episode: u32,
    reading: crate::config::ConfigModel,
    created_at: Timestamp,
    working: crate::config::ConfigModel,
    shared_dir: Seq<char>,
    show_dir: Seq<char>,
)
    requires
        working.show_dir == Some(show_dir),
    ensures
        ({
            let j = reader::episode_job(target, streams, choice, episode, reading, created_at);
            &&& base_for(j.content_type, working) matches Ok(base)
            &&& j.local_job(shared_dir, base).output_path == jellyfin::episode_location(
                show_dir,
                choice.tmdb.name,
                choice.tmdb.year,
                choice.tmdb.id,
                choice.season,
                episode,
            )
        }),
{
    reader::episode_jobs_go_where_rips_go(
        target,
        streams,
        choice,
        episode,
        reading,
        created_at,
        shared_dir,
        show_dir,
    );
}

/// A worker with a movie directory writes the job of a movie to where ripping the
/// movie there would have put it, whatever its show directory is.
pub proof fn movies_are_written_where_rips_put_them(
    target: reader::MediaTarget,
    streams: StreamConfigs,
    choice: tui::MovieChoiceModel,
    reading: crate::config::ConfigModel,
    created_at: Timestamp,
    working: crate::config::ConfigModel,
    shared_dir: Seq<char>,
    movie_dir: Seq<char>,
)
    requires
        reading.movie_dir is Some,
        working.movie_dir == Some(movie_dir),
    ensures
        ({
            &&& reader::movie_job(target, streams, choice, reading, created_at) matches Ok(j)
            &&& base_for(j.content_type, working) matches Ok(base)
            &&& j.local_job(shared_dir, base).output_path == jellyfin::movie_location(
                movie_dir,
                choice.tmdb.title,
                choice.tmdb.year,
                choice.tmdb.id,
            )
        }),
{
    reader::movie_jobs_go_where_rips_go(
        target,
        streams,
        choice,
        reading,
        created_at,
        shared_dir,
        movie_dir,
    );
}

/// Without a shutdown, a worker that waits lets one second pass after the other until
/// none is left, and then looks for jobs again.
pub proof fn waiting_workers_look_again(left: u64, interval: u64)
    ensures
        left > 0 ==> next_step(WorkerPhase::Sleeping { left }, false, interval) == (
            WorkerPhase::Sleeping { left: (left - 1) as u64 },
            WorkerAction::SleepSecond,
        ),
        next_step(WorkerPhase::Sleeping { left: 0 }, false, interval) == (
            WorkerPhase::Listing,
            WorkerAction::Poll,
        ),
        next_step(WorkerPhase::Start, false, interval) == (
            WorkerPhase::Listing,
            WorkerAction::Poll,
        ),
{
    reveal_with_fuel(next_step, 3);
}

/// A heartbeat follows the last one after thirty seconds, and none once the job is
/// done.
pub proof fn heartbeats_are_thirty_seconds_apart(since: u64)
    ensures
        since < 30 ==> next_pulse(since, false) == ((since + 1) as u64, PulseAction::WaitSecond),
        since >= 30 ==> next_pulse(since, false) == (0u64, PulseAction::Beat),
        next_pulse(since, true).1 == PulseAction::Stop,
{
}

/// What is said of a failed or silent job tells whether it is tried again: it is
/// while it has been tried fewer times than it may be.
pub proof fn outcomes_tell_what_becomes_of_the_job(j: job::DistributedJobModel)
    ensures
        j.attempt < j.max_retries ==> {
            &&& failure_text(j) == "Requeued job "@ + job::id_form(j.id) + " (attempt "@ + (
            text::decimal(j.attempt as nat) + "/"@ + text::decimal(j.max_retries as nat)) + ")"@
            &&& silence_text(j) == "Requeued stale job "@ + job::id_form(j.id) + " (attempt "@ + (
            text::decimal(j.attempt as nat) + "/"@ + text::decimal(j.max_retries as nat)) + ")"@
        },
        j.attempt >= j.max_retries ==> {
            &&& failure_text(j) == "Job "@ + job::id_form(j.id) + " moved to failed after "@
                + text::decimal(j.attempt as nat) + " attempts"@
            &&& silence_text(j) == failure_text(j)
        },
{
}

} // verus!
