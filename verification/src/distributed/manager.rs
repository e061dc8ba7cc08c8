//! Looking after the jobs in the shared directory.
use vstd::prelude::*;

use super::fs_ops::{FsStep, SharedDirs};
use super::job::{DistributedJob, Heartbeat};
use super::{clock, fs_ops, job};
use crate::config::Config;
use crate::{list, text};

verus! {

/// The shared directory, without which nothing can be shared.
pub fn required_shared_dir(config: &Config) -> (r: Result<String, String>)
    ensures
        match config.distributed.shared_dir {
            Some(dir) => r matches Ok(d) && d@ == dir@,
            None => r matches Err(message) && message@ == "distributed.shared_dir not configured"@,
        },
{
    match &config.distributed.shared_dir {
        Some(dir) => Ok(dir.clone()),
        None => Err("distributed.shared_dir not configured".to_owned()),
    }
}

// --- listing ---

/// The first digits of an identifier.
pub open spec fn short_form(id: u128) -> Seq<char> {
    job::id_form(id).take(8)
}

fn short_id(id: u128) -> (r: String)
    ensures
        r@ == short_form(id),
{
    let chars = text::chars_of(job::id_text(id).as_str());
    proof {
        job::id_digits_are_complete(id);
    }
    let short = text::text_of_range(&chars, 0, 8);
    assert(short@ =~= short_form(id));
    short
}

/// How often a job was tried, and how often it may be.
pub open spec fn attempts(j: job::DistributedJobModel) -> Seq<char> {
    text::decimal(j.attempt as nat) + "/"@ + text::decimal(j.max_retries as nat)
}

pub(crate) fn push_attempts(line: &mut String, job: &DistributedJob)
    ensures
        final(line)@ == old(line)@ + attempts(job.deep_view()),
{
    let ghost start = line@;
    text::push_decimal(line, job.attempt as u64);
    line.append("/");
    text::push_decimal(line, job.max_retries as u64);
    assert(line@ =~= start + attempts(job.deep_view()));
}

/// The line about a job.
pub open spec fn job_line(j: job::DistributedJobModel) -> Seq<char> {
    "  "@ + short_form(j.id) + " | "@ + j.content_type.label_text() + " | "@
        + j.relative_output_path + " | attempt "@ + attempts(j)
}

fn describe_job(job: &DistributedJob) -> (r: String)
    ensures
        r@ == job_line(job.deep_view()),
{
    let mut line = "  ".to_owned();
    line.append(short_id(job.id).as_str());
    line.append(" | ");
    line.append(job.content_type.label());
    line.append(" | ");
    line.append(job.relative_output_path.as_str());
    line.append(" | attempt ");
    push_attempts(&mut line, job);
    line
}

/// The line about a heartbeat.
pub open spec fn heartbeat_line(hb: Option<Heartbeat>) -> Seq<char> {
    match hb {
        Some(hb) => "       heartbeat: "@ + hb.worker_name@ + " @ "@ + clock::timestamp_text(
            hb.timestamp.secs,
            hb.timestamp.nanos,
        ),
        None => "       heartbeat: MISSING"@,
    }
}

/// The line about a heartbeat, with its time in words.
pub fn heartbeat_line_with(worker_name: &str, time: &str) -> (r: String)
    ensures
        r@ == "       heartbeat: "@ + worker_name@ + " @ "@ + time@,
{
    let mut line = "       heartbeat: ".to_owned();
    line.append(worker_name);
    line.append(" @ ");
    line.append(time);
    line
}

fn describe_heartbeat(hb: &Option<Heartbeat>) -> (r: String)
    requires
        hb matches Some(hb) ==> hb.timestamp.valid(),
    ensures
        r@ == heartbeat_line(*hb),
{
    match hb {
        Some(hb) => {
            let time = clock::show_timestamp(hb.timestamp);
            heartbeat_line_with(hb.worker_name.as_str(), time.as_str())
        },
        None => "       heartbeat: MISSING".to_owned(),
    }
}

/// A job and the heartbeat of its worker, where there is one.
#[derive(Debug)]
pub struct ListedJob {
    pub job: DistributedJob,
    pub heartbeat: Option<Heartbeat>,
}

impl ListedJob {
    /// The heartbeat's time is on the calendar.
    pub open spec fn well_formed(self) -> bool {
        self.heartbeat matches Some(hb) ==> hb.timestamp.valid()
    }
}

/// The lines about a job: itself, for an active one its heartbeat, and its last
/// error.
pub open spec fn job_lines(entry: ListedJob, active: bool) -> Seq<Seq<char>> {
    let first = seq![job_line(entry.job.deep_view())];
    let second = if active {
        seq![heartbeat_line(entry.heartbeat)]
    } else {
        Seq::empty()
    };
    let third = match entry.job.error_message {
        Some(error) => seq!["       error: "@ + error@],
        None => Seq::empty(),
    };
    first + second + third
}

fn describe(entry: &ListedJob, active: bool) -> (r: Vec<String>)
    requires
        entry.well_formed(),
    ensures
        r.deep_view() == job_lines(*entry, active),
{
    let mut lines: Vec<String> = list::single(describe_job(&entry.job));
    if active {
        list::push(&mut lines, describe_heartbeat(&entry.heartbeat));
    }
    if let Some(error) = &entry.job.error_message {
        let mut line = "       error: ".to_owned();
        line.append(error.as_str());
        list::push(&mut lines, line);
    }
    assert(lines.deep_view() =~= job_lines(*entry, active));
    lines
}

/// The lines about each of some jobs.
pub open spec fn lines_of_job(jobs: Seq<ListedJob>, active: bool) -> spec_fn(int) -> Seq<
    Seq<char>,
> {
    |i: int| job_lines(jobs[i], active)
}

/// The lines about the jobs in one directory; none where there are no jobs.
pub open spec fn section(label: Seq<char>, jobs: Seq<ListedJob>, active: bool) -> Seq<Seq<char>> {
    if jobs.len() == 0 {
        Seq::empty()
    } else {
        seq![
            Seq::<char>::empty(),
            "=== "@ + label + " ("@ + text::decimal(jobs.len()) + ") ==="@,
        ] + list::flat(jobs.len() as int, lines_of_job(jobs, active))
    }
}

/// The lines about the jobs in one directory.
pub fn jobs_in(label: &str, jobs: &Vec<ListedJob>, active: bool) -> (r: Vec<String>)
    requires
        forall|i: int| 0 <= i < jobs.len() ==> (#[trigger] jobs[i]).well_formed(),
    ensures
        r.deep_view() == section(label@, jobs@, active),
{
    if jobs.len() == 0 {
        return list::empty();
    }
    let mut lines: Vec<String> = list::single(String::new());
    let mut line = "=== ".to_owned();
    line.append(label);
    line.append(" (");
    text::push_decimal(&mut line, jobs.len() as u64);
    line.append(") ===");
    list::push(&mut lines, line);
    let ghost head = lines.deep_view();
    assert(head =~= seq![
        Seq::<char>::empty(),
        "=== "@ + label@ + " ("@ + text::decimal(jobs@.len()) + ") ==="@,
    ]);
    let mut i: usize = 0;
    assert(head =~= head + list::flat(0, lines_of_job(jobs@, active)));
    while i < jobs.len()
        invariant
            i <= jobs.len(),
            forall|k: int| 0 <= k < jobs.len() ==> (#[trigger] jobs[k]).well_formed(),
            lines.deep_view() == head + list::flat(i as int, lines_of_job(jobs@, active)),
        decreases jobs.len() - i,
    {
        assert(jobs[i as int].well_formed());
        list::extend(&mut lines, describe(&jobs[i], active));
        assert(lines.deep_view() =~= head + list::flat(i + 1, lines_of_job(jobs@, active)));
        i = i + 1;
    }
    lines
}

/// All jobs and their status.
#[derive(Debug)]
pub struct JobListing {
    pub pending: Vec<ListedJob>,
    pub active: Vec<ListedJob>,
    pub completed: Vec<ListedJob>,
    pub failed: Vec<ListedJob>,
}

impl JobListing {
    /// All heartbeats' times are on the calendar.
    pub open spec fn well_formed(self) -> bool {
        &&& forall|i: int| 0 <= i < self.pending.len() ==> (#[trigger] self.pending[i]).well_formed()
        &&& forall|i: int| 0 <= i < self.active.len() ==> (#[trigger] self.active[i]).well_formed()
        &&& forall|i: int|
            0 <= i < self.completed.len() ==> (#[trigger] self.completed[i]).well_formed()
        &&& forall|i: int| 0 <= i < self.failed.len() ==> (#[trigger] self.failed[i]).well_formed()
    }
}

/// The listing of all jobs.
pub fn list_jobs(jobs: &JobListing) -> (r: Vec<String>)
    requires
        jobs.well_formed(),
    ensures
        r.deep_view() == section("Pending"@, jobs.pending@, false) + section(
            "Active"@,
            jobs.active@,
            true,
        ) + section("Completed"@, jobs.completed@, false) + section(
            "Failed"@,
            jobs.failed@,
            false,
        ),
{
    let mut lines = jobs_in("Pending", &jobs.pending, false);
    list::extend(&mut lines, jobs_in("Active", &jobs.active, true));
    list::extend(&mut lines, jobs_in("Completed", &jobs.completed, false));
    list::extend(&mut lines, jobs_in("Failed", &jobs.failed, false));
    lines
}

// --- retrying, cleaning, recovering ---

/// A count of jobs in a sentence.
pub open spec fn counted(head: Seq<char>, n: nat, tail: Seq<char>) -> Seq<char> {
    head + text::decimal(n) + tail
}

fn count_message(head: &str, n: usize, tail: &str) -> (r: String)
    ensures
        r@ == counted(head@, n as nat, tail@),
{
    let mut message = head.to_owned();
    text::push_decimal(&mut message, n as u64);
    message.append(tail);
    message
}

/// A job as it is now, and how its file moves.
#[derive(Debug)]
pub struct JobMove {
    pub job: DistributedJob,
    pub steps: Vec<FsStep>,
}

/// What is to be done with some jobs, and what is said when it is done.
#[derive(Debug)]
pub struct RetryPlan {
    pub moves: Vec<JobMove>,
    pub summary: String,
}

/// Lets all failed jobs start over.
pub fn retry_jobs(dirs: &SharedDirs, failed: Vec<DistributedJob>) -> (r: RetryPlan)
    ensures
        r.moves.len() == failed.len(),
        forall|i: int|
            0 <= i < failed.len() ==> {
                &&& (#[trigger] r.moves[i]).job.deep_view() == fs_ops::started_over(
                    failed[i].deep_view(),
                )
                &&& r.moves[i].steps.deep_view() == fs_ops::retrying(*dirs, failed[i].id)
            },
        failed.len() == 0 ==> r.summary@ == "No failed jobs to retry."@,
        failed.len() > 0 ==> r.summary@ == counted("Retried "@, failed@.len(), " jobs."@),
{
    let ghost all = failed@;
    let n: usize = failed.len();
    let mut rest = failed;
    let mut moves: Vec<JobMove> = Vec::new();
    let mut i: usize = 0;
    assert(all.skip(0) =~= all);
    while i < n
        invariant
            i <= n == all.len(),
            rest@ == all.skip(i as int),
            moves.len() == i,
            forall|k: int|
                0 <= k < i ==> {
                    &&& (#[trigger] moves[k]).job.deep_view() == fs_ops::started_over(
                        all[k].deep_view(),
                    )
                    &&& moves[k].steps.deep_view() == fs_ops::retrying(*dirs, all[k].id)
                },
        decreases n - i,
    {
        let mut job = rest.remove(0);
        assert(job == all[i as int]);
        assert(rest@ =~= all.skip(i + 1));
        let steps = fs_ops::retry_job(dirs, &mut job);
        moves.push(JobMove { job, steps });
        i = i + 1;
    }
    let summary: String = if n == 0 {
        "No failed jobs to retry.".to_owned()
    } else {
        count_message("Retried ", n, " jobs.")
    };
    RetryPlan { moves, summary }
}

/// How a completed job is cleaned up: its file goes, and then, where that is
/// wanted, the media file that nobody needs any more.
#[derive(Debug)]
pub struct CleanStep {
    pub step: FsStep,
    pub media_file: Option<String>,
}

/// What is to be cleaned up, and what is said when it is done.
#[derive(Debug)]
pub struct CleanPlan {
    pub steps: Vec<CleanStep>,
    pub summary: String,
}

/// Cleans up all completed jobs.
pub fn clean_jobs(
    dirs: &SharedDirs,
    completed: &Vec<DistributedJob>,
    cleanup_raw_media: bool,
) -> (r: CleanPlan)
    ensures
        r.steps.len() == completed.len(),
        forall|i: int|
            0 <= i < completed.len() ==> {
                &&& (#[trigger] r.steps[i]).step.deep_view() == (fs_ops::FsStepModel::Remove {
                    path: fs_ops::job_path(dirs.completed@, completed[i].id),
                })
                &&& r.steps[i].media_file.deep_view() == if cleanup_raw_media {
                    Some(completed[i].media_file@)
                } else {
                    None
                }
            },
        completed.len() == 0 ==> r.summary@ == "No completed jobs to clean."@,
        completed.len() > 0 ==> r.summary@ == counted(
            "Cleaned "@,
            completed@.len(),
            " completed jobs."@,
        ),
{
    let mut steps: Vec<CleanStep> = Vec::new();
    let mut i: usize = 0;
    while i < completed.len()
        invariant
            i <= completed.len(),
            steps.len() == i,
            forall|k: int|
                0 <= k < i ==> {
                    &&& (#[trigger] steps[k]).step.deep_view() == (fs_ops::FsStepModel::Remove {
                        path: fs_ops::job_path(dirs.completed@, completed[k].id),
                    })
                    &&& steps[k].media_file.deep_view() == if cleanup_raw_media {
                        Some(completed[k].media_file@)
                    } else {
                        None
                    }
                },
        decreases completed.len() - i,
    {
        let media_file: Option<String> = if cleanup_raw_media {
            Some(completed[i].media_file.clone())
        } else {
            None
        };
        steps.push(CleanStep { step: fs_ops::clean_job(dirs, completed[i].id), media_file });
        i = i + 1;
    }
    let summary: String = if completed.len() == 0 {
        "No completed jobs to clean.".to_owned()
    } else {
        count_message("Cleaned ", completed.len(), " completed jobs.")
    };
    CleanPlan { steps, summary }
}

/// How a job whose worker went silent is recovered, and what is said of it
/// before and after.
#[derive(Debug)]
pub struct Recovery {
    pub announcement: String,
    /// How the job is written where it goes.
    pub writing: Vec<FsStep>,
    /// How it is then cleared from the active jobs.
    pub clearing: Vec<FsStep>,
    /// Is it cleared even where it could not be written?
    pub clears_anyway: bool,
    pub outcome: String,
}

/// What is said after a job was recovered.
pub open spec fn recovered_text(j: job::DistributedJobModel) -> Seq<char> {
    if fs_ops::exhausted(j) {
        "  -> moved to failed (attempt "@ + attempts(j) + ")"@
    } else {
        "  -> requeued (attempt "@ + attempts(j) + ")"@
    }
}

/// Recovers a job whose worker went silent.
pub fn recover_stale(dirs: &SharedDirs, job: &mut DistributedJob) -> (r: Recovery)
    requires
        old(job).attempt < u32::MAX,
    ensures
        final(job).deep_view() == fs_ops::after_silence(old(job).deep_view()),
        r.announcement@ == "Recovering stale job "@ + short_form(old(job).id) + " ("@ + old(
            job,
        ).relative_output_path@ + ")"@,
        r.writing.deep_view() == fs_ops::writing(
            fs_ops::next_dir(*dirs, final(job).deep_view()),
            old(job).id,
        ),
        r.clearing.deep_view() == fs_ops::clearing(*dirs, old(job).id),
        !r.clears_anyway,
        r.outcome@ == recovered_text(final(job).deep_view()),
{
    let mut announcement = "Recovering stale job ".to_owned();
    announcement.append(short_id(job.id).as_str());
    announcement.append(" (");
    announcement.append(job.relative_output_path.as_str());
    announcement.append(")");
    let (writing, clearing) = fs_ops::recover_job(dirs, job);
    let mut outcome: String = if job.attempt >= job.max_retries {
        "  -> moved to failed (attempt ".to_owned()
    } else {
        "  -> requeued (attempt ".to_owned()
    };
    push_attempts(&mut outcome, job);
    outcome.append(")");
    Recovery { announcement, writing, clearing, clears_anyway: false, outcome }
}

/// What is said when the active jobs have been looked through.
pub fn recovery_summary(active: usize, recovered: usize) -> (r: String)
    ensures
        active == 0 ==> r@ == "No active jobs."@,
        active > 0 && recovered == 0 ==> r@ == "No stale jobs found."@,
        active > 0 && recovered > 0 ==> r@ == counted(
            "Recovered "@,
            recovered as nat,
            " stale jobs."@,
        ),
{
    if active == 0 {
        "No active jobs.".to_owned()
    } else if recovered == 0 {
        "No stale jobs found.".to_owned()
    } else {
        count_message("Recovered ", recovered, " stale jobs.")
    }
}

/// A job is listed with the first eight characters of its identifier, what it is,
/// where its output goes and how often it was tried; what is said of a recovered job
/// tells whether it is tried again.
pub proof fn jobs_are_listed_as_they_are(j: job::DistributedJobModel)
    ensures
        ({
            let tried = text::decimal(j.attempt as nat) + "/"@ + text::decimal(
                j.max_retries as nat,
            );
            let head = "  "@ + job::id_form(j.id).take(8);
            &&& j.content_type is Movie ==> job_line(j) == head + " | "@ + "Movie"@ + " | "@
                + j.relative_output_path + " | attempt "@ + tried
            &&& j.content_type is Episode ==> job_line(j) == head + " | "@ + "Episode"@ + " | "@
                + j.relative_output_path + " | attempt "@ + tried
            &&& j.attempt < j.max_retries ==> recovered_text(j) == "  -> requeued (attempt "@ + tried
                + ")"@
            &&& j.attempt >= j.max_retries ==> recovered_text(j)
                == "  -> moved to failed (attempt "@ + tried + ")"@
        }),
{
}

/// A list of jobs has a heading that counts them, then for each job its line, for an
/// active one who last beat for it, and the error where there is one; without jobs
/// there is nothing.
pub proof fn listed_jobs_have_their_lines(
    label: Seq<char>,
    jobs: Seq<ListedJob>,
    entry: ListedJob,
    active: bool,
)
    ensures
        jobs.len() == 0 ==> section(label, jobs, active).len() == 0,
        jobs.len() > 0 ==> section(label, jobs, active)[0].len() == 0 && section(
            label,
            jobs,
            active,
        )[1] == "=== "@ + label + " ("@ + text::decimal(jobs.len()) + ") ==="@,
        ({
            let lines = job_lines(entry, active);
            &&& lines[0] == job_line(entry.job.deep_view())
            &&& active ==> lines[1] == heartbeat_line(entry.heartbeat)
            &&& entry.job.error_message matches Some(error) ==> lines.last()
                == "       error: "@ + error@
            &&& lines.len() == 1 + (if active {
                1int
            } else {
                0
            }) + (if entry.job.error_message is Some {
                1int
            } else {
                0
            })
        }),
        heartbeat_line(None) == "       heartbeat: MISSING"@,
        entry.heartbeat matches Some(hb) ==> heartbeat_line(entry.heartbeat)
            == "       heartbeat: "@ + hb.worker_name@ + " @ "@ + clock::timestamp_text(
            hb.timestamp.secs,
            hb.timestamp.nanos,
        ),
{
}

} // verus!
