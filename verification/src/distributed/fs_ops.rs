//! The shared directory: where a job's file stands, and how it is moved so that
//! it is never lost.
use vstd::prelude::*;

use super::clock::Timestamp;
use super::job::{DistributedJob, Heartbeat};
use super::{clock, job};
use crate::{list, text};

verus! {

#[derive(Debug)]
pub struct SharedDirs {
    pub root: String,
    pub pending: String,
    pub active: String,
    pub completed: String,
    pub failed: String,
    pub media: String,
}

impl SharedDirs {
    /// The directories stand below the root under their own names.
    pub open spec fn well_formed(self) -> bool {
        &&& self.pending@ == text::joined(self.root@, "pending"@)
        &&& self.active@ == text::joined(self.root@, "active"@)
        &&& self.completed@ == text::joined(self.root@, "completed"@)
        &&& self.failed@ == text::joined(self.root@, "failed"@)
        &&& self.media@ == text::joined(self.root@, "media"@)
    }

    pub fn new(shared_dir: &str) -> (r: Self)
        ensures
            r.root@ == shared_dir@,
            r.well_formed(),
    {
        SharedDirs {
            pending: text::join_path(shared_dir, "pending"),
            active: text::join_path(shared_dir, "active"),
            completed: text::join_path(shared_dir, "completed"),
            failed: text::join_path(shared_dir, "failed"),
            media: text::join_path(shared_dir, "media"),
            root: shared_dir.to_owned(),
        }
    }

    /// The directories that have to be there, in the order in which they are made.
    pub fn required_dirs(&self) -> (r: Vec<String>)
        ensures
            r.deep_view() == seq![
                self.pending@,
                self.active@,
                self.completed@,
                self.failed@,
                self.media@,
            ],
    {
        let mut dirs: Vec<String> = list::single(self.pending.clone());
        list::push(&mut dirs, self.active.clone());
        list::push(&mut dirs, self.completed.clone());
        list::push(&mut dirs, self.failed.clone());
        list::push(&mut dirs, self.media.clone());
        assert(dirs.deep_view() =~= seq![
            self.pending@,
            self.active@,
            self.completed@,
            self.failed@,
            self.media@,
        ]);
        dirs
    }
}

// --- names ---

/// The name of a job's file.
pub open spec fn job_name(id: u128) -> Seq<char> {
    job::id_form(id) + ".job.json"@
}

/// The name of a job's heartbeat.
pub open spec fn heartbeat_name(id: u128) -> Seq<char> {
    job::id_form(id) + ".heartbeat"@
}

/// The name under which a file is written before it is complete.
pub open spec fn temp_name(name: Seq<char>) -> Seq<char> {
    "."@ + name + ".tmp"@
}

fn job_filename(id: u128) -> (r: String)
    ensures
        r@ == job_name(id),
{
    let mut name = job::id_text(id);
    name.append(".job.json");
    name
}

fn heartbeat_filename(id: u128) -> (r: String)
    ensures
        r@ == heartbeat_name(id),
{
    let mut name = job::id_text(id);
    name.append(".heartbeat");
    name
}

fn temp_filename(name: &str) -> (r: String)
    ensures
        r@ == temp_name(name@),
{
    let mut temp = ".".to_owned();
    temp.append(name);
    temp.append(".tmp");
    temp
}

/// What stands behind the last dot of a file name; nothing where the name has no
/// dot or only one at its start.
pub open spec fn extension(name: Seq<char>) -> Option<Seq<char>> {
    match text::last_position(name, '.') {
        Some(i) => if i > 0 {
            Some(name.skip(i + 1))
        } else {
            None
        },
        None => None,
    }
}

/// Is a file, by its name, taken for a job?
pub fn is_job_file(name: &str) -> (r: bool)
    ensures
        r == (extension(name@) == Some("json"@)),
{
    let chars = text::chars_of(name);
    assert(chars@.take(chars@.len() as int) =~= chars@);
    match text::last_position_before(&chars, chars.len(), '.') {
        Some(i) => {
            if i == 0 {
                return false;
            }
            let tail = text::text_of_range(&chars, i + 1, chars.len());
            assert(tail@ =~= name@.skip(i + 1));
            text::same_text(tail.as_str(), "json")
        },
        None => false,
    }
}

/// Job files are taken for jobs; heartbeats are not, nor is any file that is
/// still being written.
pub proof fn only_job_files_are_listed(id: u128)
    ensures
        extension(job_name(id)) == Some("json"@),
        extension(heartbeat_name(id)) != Some("json"@),
        extension(temp_name(job_name(id))) != Some("json"@),
        extension(temp_name(heartbeat_name(id))) != Some("json"@),
{
    reveal_strlit(".job.json");
    reveal_strlit(".heartbeat");
    reveal_strlit(".tmp");
    reveal_strlit(".");
    reveal_strlit("json");
    job::id_digits_are_complete(id);
    let j = job_name(id);
    text::lemma_last_position(j, '.', 40);
    assert(j.skip(41) =~= "json"@);
    let h = heartbeat_name(id);
    text::lemma_last_position(h, '.', 36);
    assert(h.skip(37)[0] == 'h');
    assert("json"@[0] == 'j');
    let t = temp_name(j);
    text::lemma_last_position(t, '.', 46);
    assert(t.skip(47)[0] == 't');
    let u = temp_name(h);
    text::lemma_last_position(u, '.', 47);
    assert(u.skip(48)[0] == 't');
}

/// Distinct jobs have distinct files.
pub proof fn job_files_are_distinct(a: u128, b: u128)
    requires
        job_name(a) == job_name(b) || heartbeat_name(a) == heartbeat_name(b),
    ensures
        a == b,
{
    job::id_digits_are_complete(a);
    job::id_digits_are_complete(b);
    if job_name(a) == job_name(b) {
        assert(job_name(a).take(36) =~= job::id_form(a));
        assert(job_name(b).take(36) =~= job::id_form(b));
    } else {
        assert(heartbeat_name(a).take(36) =~= job::id_form(a));
        assert(heartbeat_name(b).take(36) =~= job::id_form(b));
    }
    job::ids_look_distinct(a, b);
}

// --- operations ---

/// One operation on the shared directory. The removal of a file is only tried;
/// every other operation that fails ends what it is a part of.
#[derive(Debug)]
pub enum FsStep {
    /// Writes the job that is being worked on.
    WriteJob { path: String },
    /// Writes the heartbeat that is being sent.
    WriteHeartbeat { path: String },
    Rename { from: String, to: String },
    Remove { path: String },
}

/// What an `FsStep` says.
pub ghost enum FsStepModel {
    WriteJob { path: Seq<char> },
    WriteHeartbeat { path: Seq<char> },
    Rename { from: Seq<char>, to: Seq<char> },
    Remove { path: Seq<char> },
}

impl DeepView for FsStep {
    type V = FsStepModel;

    open spec fn deep_view(&self) -> FsStepModel {
        match *self {
            FsStep::WriteJob { path } => FsStepModel::WriteJob { path: path@ },
            FsStep::WriteHeartbeat { path } => FsStepModel::WriteHeartbeat { path: path@ },
            FsStep::Rename { from, to } => FsStepModel::Rename { from: from@, to: to@ },
            FsStep::Remove { path } => FsStepModel::Remove { path: path@ },
        }
    }
}

/// The path of a job's file in a directory.
pub open spec fn job_path(dir: Seq<char>, id: u128) -> Seq<char> {
    text::joined(dir, job_name(id))
}

fn job_path_in(dir: &str, id: u128) -> (r: String)
    ensures
        r@ == job_path(dir@, id),
{
    text::join_path(dir, job_filename(id).as_str())
}

/// Writing a job: under another name first, so that nobody reads half of it.
pub open spec fn writing(dir: Seq<char>, id: u128) -> Seq<FsStepModel> {
    seq![
        FsStepModel::WriteJob { path: text::joined(dir, temp_name(job_name(id))) },
        FsStepModel::Rename {
            from: text::joined(dir, temp_name(job_name(id))),
            to: job_path(dir, id),
        },
    ]
}

/// How a job is written into a directory.
pub fn write_job_atomic(dir: &str, job: &DistributedJob) -> (r: Vec<FsStep>)
    ensures
        r.deep_view() == writing(dir@, job.id),
{
    let filename = job_filename(job.id);
    let tmp = text::join_path(dir, temp_filename(filename.as_str()).as_str());
    let final_path = text::join_path(dir, filename.as_str());
    let mut steps: Vec<FsStep> = list::single(FsStep::WriteJob { path: tmp.clone() });
    list::push(&mut steps, FsStep::Rename { from: tmp, to: final_path });
    assert(steps.deep_view() =~= writing(dir@, job.id));
    steps
}

/// Claiming a job.
pub open spec fn claiming(dirs: SharedDirs, id: u128) -> FsStepModel {
    FsStepModel::Rename { from: job_path(dirs.pending@, id), to: job_path(dirs.active@, id) }
}

/// Atomically claim a job by renaming from pending/ to active/. The job is this
/// worker's where the renaming succeeds.
pub fn claim_job(dirs: &SharedDirs, job_id: u128) -> (r: FsStep)
    ensures
        r.deep_view() == claiming(*dirs, job_id),
{
    FsStep::Rename {
        from: job_path_in(dirs.pending.as_str(), job_id),
        to: job_path_in(dirs.active.as_str(), job_id),
    }
}

/// Removing a job's heartbeat.
pub open spec fn stopping_heartbeat(dirs: SharedDirs, id: u128) -> FsStepModel {
    FsStepModel::Remove { path: text::joined(dirs.active@, heartbeat_name(id)) }
}

/// How a job's heartbeat is removed.
pub fn remove_heartbeat(dirs: &SharedDirs, job_id: u128) -> (r: FsStep)
    ensures
        r.deep_view() == stopping_heartbeat(*dirs, job_id),
{
    FsStep::Remove {
        path: text::join_path(dirs.active.as_str(), heartbeat_filename(job_id).as_str()),
    }
}

/// Completing a job.
pub open spec fn completing(dirs: SharedDirs, id: u128) -> Seq<FsStepModel> {
    seq![
        FsStepModel::Rename {
            from: job_path(dirs.active@, id),
            to: job_path(dirs.completed@, id),
        },
        stopping_heartbeat(dirs, id),
    ]
}

/// How a job is completed.
pub fn complete_job(dirs: &SharedDirs, job_id: u128) -> (r: Vec<FsStep>)
    ensures
        r.deep_view() == completing(*dirs, job_id),
{
    let mut steps: Vec<FsStep> = list::single(
        FsStep::Rename {
            from: job_path_in(dirs.active.as_str(), job_id),
            to: job_path_in(dirs.completed.as_str(), job_id),
        },
    );
    list::push(&mut steps, remove_heartbeat(dirs, job_id));
    assert(steps.deep_view() =~= completing(*dirs, job_id));
    steps
}

/// Clearing the active jobs of a job and its heartbeat.
pub open spec fn clearing(dirs: SharedDirs, id: u128) -> Seq<FsStepModel> {
    seq![
        FsStepModel::Remove { path: job_path(dirs.active@, id) },
        stopping_heartbeat(dirs, id),
    ]
}

fn clear_active(dirs: &SharedDirs, job_id: u128) -> (r: Vec<FsStep>)
    ensures
        r.deep_view() == clearing(*dirs, job_id),
{
    let mut steps: Vec<FsStep> = list::single(
        FsStep::Remove { path: job_path_in(dirs.active.as_str(), job_id) },
    );
    list::push(&mut steps, remove_heartbeat(dirs, job_id));
    assert(steps.deep_view() =~= clearing(*dirs, job_id));
    steps
}

/// Moving an active job to another directory with what is now known of it: it is
/// written there before it is removed here.
pub open spec fn moving(dirs: SharedDirs, dir: Seq<char>, id: u128) -> Seq<FsStepModel> {
    writing(dir, id) + clearing(dirs, id)
}

fn move_job(dirs: &SharedDirs, dir: &str, job: &DistributedJob) -> (r: Vec<FsStep>)
    ensures
        r.deep_view() == moving(*dirs, dir@, job.id),
{
    let mut steps = write_job_atomic(dir, job);
    list::extend(&mut steps, clear_active(dirs, job.id));
    steps
}

/// How an active job goes back to the pending ones.
pub fn requeue_job(dirs: &SharedDirs, job: &DistributedJob) -> (r: Vec<FsStep>)
    ensures
        r.deep_view() == moving(*dirs, dirs.pending@, job.id),
{
    move_job(dirs, dirs.pending.as_str(), job)
}

/// A job after one more attempt that failed.
pub open spec fn after_failure(
    j: job::DistributedJobModel,
    error: Seq<char>,
) -> job::DistributedJobModel {
    job::DistributedJobModel {
        attempt: (j.attempt + 1) as u32,
        error_message: Some(error),
        ..j
    }
}

/// Has a job been tried as often as it may be?
pub open spec fn exhausted(j: job::DistributedJobModel) -> bool {
    j.attempt >= j.max_retries
}

/// The directory that a job goes to after an attempt that failed.
pub open spec fn next_dir(dirs: SharedDirs, j: job::DistributedJobModel) -> Seq<char> {
    if exhausted(j) {
        dirs.failed@
    } else {
        dirs.pending@
    }
}

/// Notes that an attempt failed, and tells how the job moves on: back to the
/// pending jobs, or to the failed ones when it has been tried as often as it may
/// be.
pub fn fail_job(dirs: &SharedDirs, job: &mut DistributedJob, error: &str) -> (r: Vec<FsStep>)
    requires
        old(job).attempt < u32::MAX,
    ensures
        final(job).deep_view() == after_failure(old(job).deep_view(), error@),
        r.deep_view() == moving(*dirs, next_dir(*dirs, final(job).deep_view()), old(job).id),
{
    job.error_message = Some(error.to_owned());
    job.attempt = job.attempt + 1;
    if job.attempt >= job.max_retries {
        move_job(dirs, dirs.failed.as_str(), job)
    } else {
        requeue_job(dirs, job)
    }
}

/// A job after its worker went silent. Only when it has been tried as often as it
/// may be is that noted as its error.
pub open spec fn after_silence(j: job::DistributedJobModel) -> job::DistributedJobModel {
    let next = job::DistributedJobModel { attempt: (j.attempt + 1) as u32, ..j };
    if exhausted(next) {
        job::DistributedJobModel {
            error_message: Some("Stale heartbeat - max retries exceeded"@),
            ..next
        }
    } else {
        next
    }
}

/// Notes that a job's worker went silent, and tells how the job moves on: first
/// how it is written where it goes, then how it is cleared from the active jobs.
pub fn recover_job(dirs: &SharedDirs, job: &mut DistributedJob) -> (r: (Vec<FsStep>, Vec<FsStep>))
    requires
        old(job).attempt < u32::MAX,
    ensures
        final(job).deep_view() == after_silence(old(job).deep_view()),
        r.0.deep_view() == writing(next_dir(*dirs, final(job).deep_view()), old(job).id),
        r.1.deep_view() == clearing(*dirs, old(job).id),
{
    job.attempt = job.attempt + 1;
    let writing_steps: Vec<FsStep>;
    if job.attempt >= job.max_retries {
        job.error_message = Some("Stale heartbeat - max retries exceeded".to_owned());
        writing_steps = write_job_atomic(dirs.failed.as_str(), job);
    } else {
        writing_steps = write_job_atomic(dirs.pending.as_str(), job);
    }
    (writing_steps, clear_active(dirs, job.id))
}

/// A job that starts over.
pub open spec fn started_over(j: job::DistributedJobModel) -> job::DistributedJobModel {
    job::DistributedJobModel { attempt: 0, error_message: None, ..j }
}

/// Retrying a failed job.
pub open spec fn retrying(dirs: SharedDirs, id: u128) -> Seq<FsStepModel> {
    writing(dirs.pending@, id).push(FsStepModel::Remove { path: job_path(dirs.failed@, id) })
}

/// Lets a failed job start over, and tells how it moves back to the pending ones.
pub fn retry_job(dirs: &SharedDirs, job: &mut DistributedJob) -> (r: Vec<FsStep>)
    ensures
        final(job).deep_view() == started_over(old(job).deep_view()),
        r.deep_view() == retrying(*dirs, old(job).id),
{
    job.attempt = 0;
    job.error_message = None;
    let mut steps = write_job_atomic(dirs.pending.as_str(), job);
    list::push(
        &mut steps,
        FsStep::Remove { path: job_path_in(dirs.failed.as_str(), job.id) },
    );
    steps
}

/// How a completed job is forgotten.
pub fn clean_job(dirs: &SharedDirs, job_id: u128) -> (r: FsStep)
    ensures
        r.deep_view() == (FsStepModel::Remove { path: job_path(dirs.completed@, job_id) }),
{
    FsStep::Remove { path: job_path_in(dirs.completed.as_str(), job_id) }
}

/// Sending a heartbeat.
pub open spec fn beating(dirs: SharedDirs, id: u128) -> Seq<FsStepModel> {
    seq![
        FsStepModel::WriteHeartbeat {
            path: text::joined(dirs.active@, temp_name(heartbeat_name(id))),
        },
        FsStepModel::Rename {
            from: text::joined(dirs.active@, temp_name(heartbeat_name(id))),
            to: text::joined(dirs.active@, heartbeat_name(id)),
        },
    ]
}

/// How a heartbeat is sent.
pub fn write_heartbeat(dirs: &SharedDirs, job_id: u128) -> (r: Vec<FsStep>)
    ensures
        r.deep_view() == beating(*dirs, job_id),
{
    let filename = heartbeat_filename(job_id);
    let tmp = text::join_path(dirs.active.as_str(), temp_filename(filename.as_str()).as_str());
    let final_path = text::join_path(dirs.active.as_str(), filename.as_str());
    let mut steps: Vec<FsStep> = list::single(FsStep::WriteHeartbeat { path: tmp.clone() });
    list::push(&mut steps, FsStep::Rename { from: tmp, to: final_path });
    assert(steps.deep_view() =~= beating(*dirs, job_id));
    steps
}

/// Where a job's heartbeat stands.
pub fn heartbeat_path(dirs: &SharedDirs, job_id: u128) -> (r: String)
    ensures
        r@ == text::joined(dirs.active@, heartbeat_name(job_id)),
{
    text::join_path(dirs.active.as_str(), heartbeat_filename(job_id).as_str())
}

// --- heartbeats ---

/// A number of seconds as a signed number: one that is too large counts as
/// negative.
pub open spec fn as_signed(secs: u64) -> int {
    if secs <= i64::MAX {
        secs as int
    } else {
        secs - 0x1_0000_0000_0000_0000
    }
}

/// Is a heartbeat too old? A missing one is.
pub open spec fn stale_at(hb: Option<Heartbeat>, now: Timestamp, timeout_secs: u64) -> bool {
    match hb {
        Some(hb) => clock::elapsed_seconds(now, hb.timestamp) > as_signed(timeout_secs),
        None => true,
    }
}

/// Is an age in whole seconds too old?
pub fn is_too_old(age: i64, timeout_secs: u64) -> (r: bool)
    ensures
        r == (age > as_signed(timeout_secs)),
{
    let limit: i128 = if timeout_secs <= i64::MAX as u64 {
        timeout_secs as i128
    } else {
        timeout_secs as i128 - 0x1_0000_0000_0000_0000
    };
    age as i128 > limit
}

/// Is a heartbeat too old at some time? A missing one is.
pub fn heartbeat_stale_at(hb: &Option<Heartbeat>, now: Timestamp, timeout_secs: u64) -> (r: bool)
    requires
        now.valid(),
        hb matches Some(hb) ==> hb.timestamp.valid(),
    ensures
        r == stale_at(*hb, now, timeout_secs),
{
    match hb {
        Some(hb) => {
            let age: i64 = clock::seconds_between(now, hb.timestamp);
            is_too_old(age, timeout_secs)
        },
        None => true,
    }
}

/// Is a heartbeat too old by now? A missing one is, whatever the time.
pub fn is_heartbeat_stale(hb: &Option<Heartbeat>, timeout_secs: u64) -> (r: bool)
    requires
        hb matches Some(hb) ==> hb.timestamp.valid(),
    ensures
        hb is None ==> r,
        exists|now: Timestamp|
            now.valid() && now.ordinary() && now.secs >= 0 && r == #[trigger] stale_at(
                *hb,
                now,
                timeout_secs,
            ),
{
    let now = clock::now();
    heartbeat_stale_at(hb, now, timeout_secs)
}

// --- media ---

/// Does one of some jobs need a media file?
pub open spec fn needed_by(jobs: Seq<job::DistributedJobModel>, media_file: Seq<char>) -> bool {
    exists|i: int| 0 <= i < jobs.len() && (#[trigger] jobs[i]).media_file == media_file
}

fn some_job_needs(jobs: &Vec<DistributedJob>, media_file: &str) -> (r: bool)
    ensures
        r == needed_by(jobs.deep_view(), media_file@),
{
    let ghost models = jobs.deep_view();
    let mut i: usize = 0;
    while i < jobs.len()
        invariant
            i <= jobs.len(),
            models == jobs.deep_view(),
            forall|k: int| 0 <= k < i ==> (#[trigger] models[k]).media_file != media_file@,
        decreases jobs.len() - i,
    {
        assert(models[i as int] == jobs[i as int].deep_view());
        if text::same_text(jobs[i].media_file.as_str(), media_file) {
            return true;
        }
        i = i + 1;
    }
    false
}

/// The media file to remove, unless a pending or active job still needs it.
pub fn maybe_cleanup_media(
    dirs: &SharedDirs,
    pending: &Vec<DistributedJob>,
    active: &Vec<DistributedJob>,
    media_file: &str,
) -> (r: Option<String>)
    ensures
        match r {
            Some(path) => {
                &&& !needed_by(pending.deep_view(), media_file@)
                &&& !needed_by(active.deep_view(), media_file@)
                &&& path@ == text::joined(dirs.media@, media_file@)
            },
            None => needed_by(pending.deep_view(), media_file@) || needed_by(
                active.deep_view(),
                media_file@,
            ),
        },
{
    if some_job_needs(pending, media_file) || some_job_needs(active, media_file) {
        None
    } else {
        Some(text::join_path(dirs.media.as_str(), media_file))
    }
}

// --- what the operations keep ---

/// Can an operation succeed on a directory tree with these files and contents?
pub open spec fn possible<C>(step: FsStepModel, files: Map<Seq<char>, C>) -> bool {
    step matches FsStepModel::Rename { from, .. } ==> files.contains_key(from)
}

/// The files and contents after an operation; `written` is what a job or a
/// heartbeat that is written holds.
pub open spec fn after_step<C>(step: FsStepModel, files: Map<Seq<char>, C>, written: C) -> Map<
    Seq<char>,
    C,
> {
    match step {
        FsStepModel::WriteJob { path } => files.insert(path, written),
        FsStepModel::WriteHeartbeat { path } => files.insert(path, written),
        FsStepModel::Rename { from, to } => files.remove(from).insert(to, files[from]),
        FsStepModel::Remove { path } => files.remove(path),
    }
}

/// The files and contents after some operations, one after another.
pub open spec fn after_steps<C>(
    steps: Seq<FsStepModel>,
    files: Map<Seq<char>, C>,
    written: C,
) -> Map<Seq<char>, C>
    decreases steps.len(),
{
    if steps.len() == 0 {
        files
    } else {
        after_step(steps.last(), after_steps(steps.drop_last(), files, written), written)
    }
}

/// The four places where a job can stand.
pub open spec fn places(dirs: SharedDirs, id: u128) -> Seq<Seq<char>> {
    seq![
        job_path(dirs.pending@, id),
        job_path(dirs.active@, id),
        job_path(dirs.completed@, id),
        job_path(dirs.failed@, id),
    ]
}

proof fn lemma_dirs_differ(
    root: Seq<char>,
    a: Seq<char>,
    x: Seq<char>,
    b: Seq<char>,
    y: Seq<char>,
)
    requires
        a.len() > 0 && b.len() > 0 && x.len() > 0 && y.len() > 0,
        a[0] != b[0],
        a[0] != '/' && b[0] != '/',
        x[0] != '/' && y[0] != '/',
    ensures
        text::joined(text::joined(root, a), x) != text::joined(text::joined(root, b), y),
{
    let p = text::joined(text::joined(root, a), x);
    let q = text::joined(text::joined(root, b), y);
    let n = if root.len() == 0 || root.last() == '/' {
        root.len() as int
    } else {
        root.len() as int + 1
    };
    assert(p[n] == a[0]);
    assert(q[n] == b[0]);
}

proof fn lemma_names_differ(dir: Seq<char>, x: Seq<char>, y: Seq<char>)
    requires
        x.len() > 0 && y.len() > 0,
        x.len() != y.len(),
        x[0] != '/' && y[0] != '/',
    ensures
        text::joined(dir, x) != text::joined(dir, y),
{
    assert(text::joined(dir, x).len() - x.len() == text::joined(dir, y).len() - y.len());
}

proof fn lemma_names(id: u128)
    ensures
        job_name(id).len() == 45,
        heartbeat_name(id).len() == 46,
        temp_name(job_name(id)).len() == 50,
        job_name(id)[0] != '/',
        heartbeat_name(id)[0] != '/',
        temp_name(job_name(id))[0] != '/',
{
    reveal_strlit(".job.json");
    reveal_strlit(".heartbeat");
    reveal_strlit(".tmp");
    reveal_strlit(".");
    job::id_digits_are_complete(id);
    lemma_first_digit(id);
    assert(job_name(id)[0] == job::id_form(id)[0]);
    assert(heartbeat_name(id)[0] == job::id_form(id)[0]);
    assert(temp_name(job_name(id))[0] == '.');
}

proof fn lemma_hex_first(n: nat)
    ensures
        text::hexadecimal(n).len() > 0,
        text::hexadecimal(n)[0] != '/',
    decreases n,
{
    if n >= 16 {
        lemma_hex_first(n / 16);
        assert(text::hexadecimal(n)[0] == text::hexadecimal(n / 16)[0]);
    }
}

proof fn lemma_first_digit(id: u128)
    ensures
        job::id_form(id)[0] != '/',
{
    job::id_digits_are_complete(id);
    lemma_hex_first(id as nat);
    let d = job::id_digits(id);
    assert(job::id_form(id)[0] == d[0]);
}

proof fn lemma_places(dirs: SharedDirs, id: u128)
    requires
        dirs.well_formed(),
    ensures
        forall|i: int, j: int|
            0 <= i < j < 4 ==> #[trigger] places(dirs, id)[i] != #[trigger] places(dirs, id)[j],
        forall|i: int|
            0 <= i < 4 ==> #[trigger] places(dirs, id)[i] != text::joined(
                dirs.active@,
                heartbeat_name(id),
            ),
        forall|i: int|
            0 <= i < 4 ==> #[trigger] places(dirs, id)[i] != text::joined(
                dirs.pending@,
                temp_name(job_name(id)),
            ),
        forall|i: int|
            0 <= i < 4 ==> #[trigger] places(dirs, id)[i] != text::joined(
                dirs.failed@,
                temp_name(job_name(id)),
            ),
        text::joined(dirs.pending@, temp_name(job_name(id))) != text::joined(
            dirs.active@,
            heartbeat_name(id),
        ),
        text::joined(dirs.failed@, temp_name(job_name(id))) != text::joined(
            dirs.active@,
            heartbeat_name(id),
        ),
{
    lemma_names(id);
    reveal_strlit("pending");
    reveal_strlit("active");
    reveal_strlit("completed");
    reveal_strlit("failed");
    let r = dirs.root@;
    let (p, a, c, f) = ("pending"@, "active"@, "completed"@, "failed"@);
    let j = job_name(id);
    let h = heartbeat_name(id);
    let t = temp_name(j);
    lemma_dirs_differ(r, p, j, a, j);
    lemma_dirs_differ(r, p, j, c, j);
    lemma_dirs_differ(r, p, j, f, j);
    lemma_dirs_differ(r, a, j, c, j);
    lemma_dirs_differ(r, a, j, f, j);
    lemma_dirs_differ(r, c, j, f, j);
    lemma_dirs_differ(r, p, j, a, h);
    lemma_dirs_differ(r, c, j, a, h);
    lemma_dirs_differ(r, f, j, a, h);
    lemma_names_differ(dirs.active@, j, h);
    lemma_dirs_differ(r, a, j, p, t);
    lemma_dirs_differ(r, c, j, p, t);
    lemma_dirs_differ(r, f, j, p, t);
    lemma_names_differ(dirs.pending@, j, t);
    lemma_dirs_differ(r, p, j, f, t);
    lemma_dirs_differ(r, a, j, f, t);
    lemma_dirs_differ(r, c, j, f, t);
    lemma_names_differ(dirs.failed@, j, t);
    lemma_dirs_differ(r, p, t, a, h);
    lemma_dirs_differ(r, f, t, a, h);
    let s = places(dirs, id);
    assert forall|i: int, k: int| 0 <= i < k < 4 implies #[trigger] s[i] != #[trigger] s[k] by {
        assert(i == 0 || i == 1 || i == 2);
        assert(k == 1 || k == 2 || k == 3);
    }
    assert forall|i: int| 0 <= i < 4 implies #[trigger] s[i] != text::joined(dirs.active@, h) by {
        assert(i == 0 || i == 1 || i == 2 || i == 3);
    }
    assert forall|i: int| 0 <= i < 4 implies #[trigger] s[i] != text::joined(dirs.pending@, t) by {
        assert(i == 0 || i == 1 || i == 2 || i == 3);
    }
    assert forall|i: int| 0 <= i < 4 implies #[trigger] s[i] != text::joined(dirs.failed@, t) by {
        assert(i == 0 || i == 1 || i == 2 || i == 3);
    }
}

/// Does a job stand in exactly one of its four places?
pub open spec fn stands_only_at<C>(
    dirs: SharedDirs,
    id: u128,
    files: Map<Seq<char>, C>,
    at: Seq<char>,
) -> bool {
    forall|i: int|
        0 <= i < 4 ==> (files.contains_key(#[trigger] places(dirs, id)[i]) <==> places(dirs, id)[i]
            == at)
}

/// What a claim does to the files, and whether it succeeds: where the renaming
/// cannot be done, nothing changes.
pub open spec fn after_claim<C>(dirs: SharedDirs, id: u128, files: Map<Seq<char>, C>) -> (
    Map<Seq<char>, C>,
    bool,
) {
    if possible(claiming(dirs, id), files) {
        (after_step(claiming(dirs, id), files, files[job_path(dirs.pending@, id)]), true)
    } else {
        (files, false)
    }
}

/// Do the states of the shared directory follow from one another? Each event is a
/// claim of the job by some worker, with its outcome, or anything else that anyone
/// does without putting the job in or taking it out of the pending ones.
pub open spec fn is_history<C>(
    dirs: SharedDirs,
    id: u128,
    states: Seq<Map<Seq<char>, C>>,
    claims: Seq<Option<bool>>,
) -> bool {
    &&& states.len() == claims.len() + 1
    &&& forall|i: int|
        0 <= i < claims.len() ==> match #[trigger] claims[i] {
            Some(won) => after_claim(dirs, id, states[i]) == (states[i + 1], won),
            None => {
                let p = job_path(dirs.pending@, id);
                &&& states[i].contains_key(p) <==> states[i + 1].contains_key(p)
                &&& states[i].contains_key(p) ==> states[i][p] == states[i + 1][p]
            },
        }
}

/// Of any number of claims of a pending job, by one or by several workers, exactly
/// the first succeeds. Just after it the job is gone from the pending ones and
/// stands among the active ones with the same contents; every later claim fails
/// and changes nothing.
pub proof fn a_job_is_claimed_once<C>(
    dirs: SharedDirs,
    id: u128,
    states: Seq<Map<Seq<char>, C>>,
    claims: Seq<Option<bool>>,
    first: int,
    i: int,
)
    requires
        dirs.well_formed(),
        is_history(dirs, id, states, claims),
        states[0].contains_key(job_path(dirs.pending@, id)),
        0 <= first < claims.len(),
        claims[first] is Some,
        forall|k: int| 0 <= k < first ==> claims[k] is None,
        0 <= i < claims.len(),
    ensures
        claims[i] == Some(true) <==> i == first,
        !states[first + 1].contains_key(job_path(dirs.pending@, id)),
        states[first + 1].contains_key(job_path(dirs.active@, id)),
        states[first + 1][job_path(dirs.active@, id)] == states[0][job_path(dirs.pending@, id)],
        claims[i] is Some && i > first ==> claims[i] == Some(false) && states[i + 1] == states[i],
{
    let p = job_path(dirs.pending@, id);
    let a = job_path(dirs.active@, id);
    lemma_places(dirs, id);
    assert(places(dirs, id)[0] == p && places(dirs, id)[1] == a);
    lemma_unclaimed(dirs, id, states, claims, first);
    assert(claims[first] is Some);
    if i > first {
        lemma_claimed(dirs, id, states, claims, first + 1, i);
        assert(claims[i] is Some || claims[i] is None);
    }
    if i < first {
        assert(claims[i] is None);
    }
}

/// Until the first claim the pending job stays as it is.
proof fn lemma_unclaimed<C>(
    dirs: SharedDirs,
    id: u128,
    states: Seq<Map<Seq<char>, C>>,
    claims: Seq<Option<bool>>,
    n: int,
)
    requires
        is_history(dirs, id, states, claims),
        states[0].contains_key(job_path(dirs.pending@, id)),
        0 <= n <= claims.len(),
        forall|k: int| 0 <= k < n ==> claims[k] is None,
    ensures
        states[n].contains_key(job_path(dirs.pending@, id)),
        states[n][job_path(dirs.pending@, id)] == states[0][job_path(dirs.pending@, id)],
    decreases n,
{
    if n > 0 {
        lemma_unclaimed(dirs, id, states, claims, n - 1);
        assert(claims[n - 1] is None);
    }
}

/// A job that is not pending does not become so.
proof fn lemma_claimed<C>(
    dirs: SharedDirs,
    id: u128,
    states: Seq<Map<Seq<char>, C>>,
    claims: Seq<Option<bool>>,
    m: int,
    n: int,
)
    requires
        is_history(dirs, id, states, claims),
        0 <= m <= n <= claims.len(),
        !states[m].contains_key(job_path(dirs.pending@, id)),
    ensures
        !states[n].contains_key(job_path(dirs.pending@, id)),
    decreases n,
{
    if m < n {
        lemma_claimed(dirs, id, states, claims, m, n - 1);
        assert(claims[n - 1] is Some || claims[n - 1] is None);
    }
}

/// Claiming moves the job from the pending to the active ones.
pub proof fn claiming_moves_the_job<C>(dirs: SharedDirs, id: u128, files: Map<Seq<char>, C>)
    requires
        dirs.well_formed(),
        stands_only_at(dirs, id, files, job_path(dirs.pending@, id)),
    ensures
        after_claim(dirs, id, files).1,
        stands_only_at(
            dirs,
            id,
            after_claim(dirs, id, files).0,
            job_path(dirs.active@, id),
        ),
{
    lemma_places(dirs, id);
    let s = places(dirs, id);
    assert(s[0] == job_path(dirs.pending@, id));
    assert(s[1] == job_path(dirs.active@, id));
    assert(files.contains_key(s[0]));
    let claimed = after_claim(dirs, id, files).0;
    assert forall|i: int| 0 <= i < 4 implies (claimed.contains_key(#[trigger] s[i]) <==> s[i]
        == job_path(dirs.active@, id)) by {
        assert(files.contains_key(s[i]) <==> s[i] == s[0]);
        if i != 1 {
            if i < 1 {
                assert(s[i] != s[1]);
            } else {
                assert(s[1] != s[i]);
            }
        }
    }
}

/// Completing moves the job from the active to the completed ones as it is.
pub proof fn completing_moves_the_job<C>(
    dirs: SharedDirs,
    id: u128,
    files: Map<Seq<char>, C>,
    written: C,
)
    requires
        dirs.well_formed(),
        stands_only_at(dirs, id, files, job_path(dirs.active@, id)),
    ensures
        possible(completing(dirs, id)[0], files),
        ({
            let end = after_steps(completing(dirs, id), files, written);
            &&& stands_only_at(dirs, id, end, job_path(dirs.completed@, id))
            &&& end[job_path(dirs.completed@, id)] == files[job_path(dirs.active@, id)]
            &&& !end.contains_key(text::joined(dirs.active@, heartbeat_name(id)))
        }),
{
    lemma_places(dirs, id);
    let s = places(dirs, id);
    let steps = completing(dirs, id);
    assert(s[1] == job_path(dirs.active@, id));
    assert(s[2] == job_path(dirs.completed@, id));
    assert(files.contains_key(s[1]));
    assert(steps.take(0).len() == 0);
    lemma_next_step(steps, 0, files, written);
    lemma_next_step(steps, 1, files, written);
    assert(steps.take(2) =~= steps);
    let end = after_steps(steps, files, written);
    assert(s[2] != text::joined(dirs.active@, heartbeat_name(id)));
    assert forall|i: int| 0 <= i < 4 implies (end.contains_key(#[trigger] s[i]) <==> s[i]
        == job_path(dirs.completed@, id)) by {
        assert(files.contains_key(s[i]) <==> s[i] == s[1]);
        if i < 2 {
            assert(s[i] != s[2]);
        } else if i > 2 {
            assert(s[2] != s[i]);
        }
    }
}

proof fn lemma_next_step<C>(
    steps: Seq<FsStepModel>,
    k: int,
    files: Map<Seq<char>, C>,
    written: C,
)
    requires
        0 <= k < steps.len(),
    ensures
        after_steps(steps.take(k + 1), files, written) == after_step(
            steps[k],
            after_steps(steps.take(k), files, written),
            written,
        ),
{
    assert(steps.take(k + 1).drop_last() =~= steps.take(k));
    assert(steps.take(k + 1).last() == steps[k]);
}

/// However far the moving of an active job to the pending or the failed ones
/// gets, the job's file is there: unchanged in its old place until it stands in the
/// new one with what is now known of it. When it is through, the job stands in the
/// new place alone, and its heartbeat is gone.
pub proof fn moving_never_loses_the_job<C>(
    dirs: SharedDirs,
    dir: Seq<char>,
    id: u128,
    files: Map<Seq<char>, C>,
    written: C,
    k: int,
)
    requires
        dirs.well_formed(),
        dir == dirs.pending@ || dir == dirs.failed@,
        stands_only_at(dirs, id, files, job_path(dirs.active@, id)),
        0 <= k <= moving(dirs, dir, id).len(),
    ensures
        ({
            let now = after_steps(moving(dirs, dir, id).take(k), files, written);
            let old_place = job_path(dirs.active@, id);
            let new_place = job_path(dir, id);
            ||| now.contains_key(old_place) && now[old_place] == files[old_place]
            ||| now.contains_key(new_place) && now[new_place] == written
        }),
        k < moving(dirs, dir, id).len() ==> possible(
            moving(dirs, dir, id)[k],
            after_steps(moving(dirs, dir, id).take(k), files, written),
        ),
        ({
            let end = after_steps(moving(dirs, dir, id), files, written);
            &&& stands_only_at(dirs, id, end, job_path(dir, id))
            &&& end[job_path(dir, id)] == written
            &&& !end.contains_key(text::joined(dirs.active@, heartbeat_name(id)))
            &&& !end.contains_key(text::joined(dir, temp_name(job_name(id))))
        }),
{
    lemma_places(dirs, id);
    let s = places(dirs, id);
    let steps = moving(dirs, dir, id);
    let active = job_path(dirs.active@, id);
    let target = job_path(dir, id);
    let temp = text::joined(dir, temp_name(job_name(id)));
    let beat = text::joined(dirs.active@, heartbeat_name(id));
    assert(s[0] == job_path(dirs.pending@, id) && s[1] == active && s[3] == job_path(
        dirs.failed@,
        id,
    ));
    assert(steps.len() == 4);
    assert(after_steps(steps.take(0), files, written) == files);
    lemma_next_step(steps, 0, files, written);
    lemma_next_step(steps, 1, files, written);
    lemma_next_step(steps, 2, files, written);
    lemma_next_step(steps, 3, files, written);
    assert(steps.take(4) =~= steps);
    assert(files.contains_key(active));
    assert(target != temp && active != temp && active != target && target != beat);
    let f4 = after_steps(steps.take(4), files, written);
    assert forall|i: int| 0 <= i < 4 implies (f4.contains_key(#[trigger] s[i]) <==> s[i]
        == target) by {
        assert(files.contains_key(s[i]) <==> s[i] == active);
        assert(s[i] != temp);
        assert(s[i] != beat);
    }
    assert(k == 0 || k == 1 || k == 2 || k == 3 || k == 4);
}

/// The same holds of a failed job that is retried.
pub proof fn retrying_never_loses_the_job<C>(
    dirs: SharedDirs,
    id: u128,
    files: Map<Seq<char>, C>,
    written: C,
    k: int,
)
    requires
        dirs.well_formed(),
        stands_only_at(dirs, id, files, job_path(dirs.failed@, id)),
        0 <= k <= retrying(dirs, id).len(),
    ensures
        ({
            let now = after_steps(retrying(dirs, id).take(k), files, written);
            let old_place = job_path(dirs.failed@, id);
            let new_place = job_path(dirs.pending@, id);
            ||| now.contains_key(old_place) && now[old_place] == files[old_place]
            ||| now.contains_key(new_place) && now[new_place] == written
        }),
        k < retrying(dirs, id).len() ==> possible(
            retrying(dirs, id)[k],
            after_steps(retrying(dirs, id).take(k), files, written),
        ),
        ({
            let end = after_steps(retrying(dirs, id), files, written);
            &&& stands_only_at(dirs, id, end, job_path(dirs.pending@, id))
            &&& end[job_path(dirs.pending@, id)] == written
        }),
{
    lemma_places(dirs, id);
    let s = places(dirs, id);
    let steps = retrying(dirs, id);
    let failed = job_path(dirs.failed@, id);
    let pending = job_path(dirs.pending@, id);
    let temp = text::joined(dirs.pending@, temp_name(job_name(id)));
    assert(s[0] == pending && s[3] == failed);
    assert(steps.len() == 3);
    assert(after_steps(steps.take(0), files, written) == files);
    lemma_next_step(steps, 0, files, written);
    lemma_next_step(steps, 1, files, written);
    lemma_next_step(steps, 2, files, written);
    assert(steps.take(3) =~= steps);
    assert(files.contains_key(failed));
    assert(pending != temp && failed != temp && failed != pending);
    let f3 = after_steps(steps.take(3), files, written);
    assert forall|i: int| 0 <= i < 4 implies (f3.contains_key(#[trigger] s[i]) <==> s[i]
        == pending) by {
        assert(files.contains_key(s[i]) <==> s[i] == failed);
        assert(s[i] != temp);
    }
    assert(k == 0 || k == 1 || k == 2 || k == 3);
}

/// The files after jobs have been written into a directory one after another, each
/// given by its identifier and its contents.
pub open spec fn after_writes<C>(
    dir: Seq<char>,
    jobs: Seq<(u128, C)>,
    files: Map<Seq<char>, C>,
) -> Map<Seq<char>, C>
    decreases jobs.len(),
{
    if jobs.len() == 0 {
        files
    } else {
        after_steps(
            writing(dir, jobs.last().0),
            after_writes(dir, jobs.drop_last(), files),
            jobs.last().1,
        )
    }
}

/// The contents of the last of some jobs with an identifier; none where no job has
/// it.
pub open spec fn last_written<C>(jobs: Seq<(u128, C)>, id: u128) -> Option<C>
    decreases jobs.len(),
{
    if jobs.len() == 0 {
        None
    } else if jobs.last().0 == id {
        Some(jobs.last().1)
    } else {
        last_written(jobs.drop_last(), id)
    }
}

proof fn lemma_joined_names(dir: Seq<char>, x: Seq<char>, y: Seq<char>)
    requires
        x.len() > 0 && y.len() > 0,
        x[0] != '/' && y[0] != '/',
        text::joined(dir, x) == text::joined(dir, y),
    ensures
        x == y,
{
    let p = text::joined(dir, x);
    let n = p.len() - x.len();
    assert(p.skip(n) =~= x);
    assert(text::joined(dir, y).skip(n) =~= y);
}

/// The path that a job is written under before it is complete.
pub open spec fn temp_path(dir: Seq<char>, id: u128) -> Seq<char> {
    text::joined(dir, temp_name(job_name(id)))
}

/// Paths of jobs and their temporary files in one directory are all distinct.
proof fn lemma_paths_in_dir(dir: Seq<char>, a: u128, b: u128)
    ensures
        job_path(dir, a) != temp_path(dir, b),
        a != b ==> job_path(dir, a) != job_path(dir, b),
        a != b ==> temp_path(dir, a) != temp_path(dir, b),
{
    lemma_names(a);
    lemma_names(b);
    lemma_names_differ(dir, job_name(a), temp_name(job_name(b)));
    if job_path(dir, a) == job_path(dir, b) {
        lemma_joined_names(dir, job_name(a), job_name(b));
        job_files_are_distinct(a, b);
    }
    if temp_path(dir, a) == temp_path(dir, b) {
        let x = temp_name(job_name(a));
        let y = temp_name(job_name(b));
        lemma_joined_names(dir, x, y);
        let k = "."@.len() as int;
        assert(x.subrange(k, k + 45) =~= job_name(a));
        assert(y.subrange(k, k + 45) =~= job_name(b));
        job_files_are_distinct(a, b);
    }
}

proof fn lemma_one_write<C>(dir: Seq<char>, id: u128, files: Map<Seq<char>, C>, written: C)
    ensures
        after_steps(writing(dir, id), files, written) == files.insert(
            job_path(dir, id),
            written,
        ).remove(temp_path(dir, id)),
{
    let steps = writing(dir, id);
    let job = job_path(dir, id);
    let temp = temp_path(dir, id);
    lemma_paths_in_dir(dir, id, id);
    assert(steps.take(0).len() == 0);
    assert(after_steps(steps.take(0), files, written) == files);
    lemma_next_step(steps, 0, files, written);
    lemma_next_step(steps, 1, files, written);
    assert(steps.take(2) =~= steps);
    assert(after_steps(steps, files, written) =~= files.insert(job, written).remove(temp));
}

/// After jobs have been written into a directory in order, every identifier has one
/// file there, which holds the last job of that identifier, and none of the
/// temporary files is left; every other file is as it was.
pub proof fn writes_keep_the_last_job<C>(
    dir: Seq<char>,
    jobs: Seq<(u128, C)>,
    files: Map<Seq<char>, C>,
    id: u128,
    path: Seq<char>,
)
    ensures
        last_written(jobs, id) matches Some(c) ==> {
            let end = after_writes(dir, jobs, files);
            &&& end.contains_key(job_path(dir, id))
            &&& end[job_path(dir, id)] == c
            &&& !end.contains_key(temp_path(dir, id))
        },
        (forall|other: u128| #[trigger]
            last_written(jobs, other) is Some ==> path != job_path(dir, other) && path
                != temp_path(dir, other)) ==> {
            let end = after_writes(dir, jobs, files);
            &&& end.contains_key(path) <==> files.contains_key(path)
            &&& files.contains_key(path) ==> end[path] == files[path]
        },
    decreases jobs.len(),
{
    if jobs.len() > 0 {
        let rest = jobs.drop_last();
        let (last, content) = jobs.last();
        let before = after_writes(dir, rest, files);
        let end = after_writes(dir, jobs, files);
        writes_keep_the_last_job(dir, rest, files, id, path);
        lemma_one_write(dir, last, before, content);
        assert(last_written(jobs, last) is Some);
        lemma_paths_in_dir(dir, id, last);
        lemma_paths_in_dir(dir, last, id);
        lemma_paths_in_dir(dir, last, last);
        if forall|other: u128| #[trigger]
            last_written(jobs, other) is Some ==> path != job_path(dir, other) && path
                != temp_path(dir, other) {
            assert(path != job_path(dir, last) && path != temp_path(dir, last));
            assert forall|other: u128| #[trigger]
                last_written(rest, other) is Some implies path != job_path(dir, other) && path
                != temp_path(dir, other) by {
                assert(last_written(jobs, other) is Some);
            }
        }
    }
}

/// A directory into which jobs have been written holds those jobs' files alone,
/// one for each identifier.
pub proof fn written_directories_hold_one_file_per_job<C>(
    dir: Seq<char>,
    jobs: Seq<(u128, C)>,
    path: Seq<char>,
)
    ensures
        after_writes(dir, jobs, Map::<Seq<char>, C>::empty()).contains_key(path) <==> exists|
            id: u128,
        | #[trigger]
            last_written(jobs, id) is Some && path == job_path(dir, id),
{
    let none = Map::<Seq<char>, C>::empty();
    let end = after_writes(dir, jobs, none);
    if exists|id: u128| #[trigger] last_written(jobs, id) is Some && path == job_path(dir, id) {
        let id = choose|id: u128| #[trigger]
            last_written(jobs, id) is Some && path == job_path(dir, id);
        writes_keep_the_last_job(dir, jobs, none, id, path);
    } else if exists|id: u128| #[trigger]
        last_written(jobs, id) is Some && path == temp_path(dir, id) {
        let id = choose|id: u128| #[trigger]
            last_written(jobs, id) is Some && path == temp_path(dir, id);
        writes_keep_the_last_job(dir, jobs, none, id, path);
    } else {
        writes_keep_the_last_job(dir, jobs, none, 0, path);
    }
}

/// A job after some attempts that failed.
pub open spec fn after_failures(
    j: job::DistributedJobModel,
    errors: Seq<Seq<char>>,
) -> job::DistributedJobModel
    decreases errors.len(),
{
    if errors.len() == 0 {
        j
    } else {
        after_failure(after_failures(j, errors.drop_last()), errors.last())
    }
}

/// A job that starts at attempt 0 goes to the failed ones with the attempt that
/// reaches its number of retries and not before, and it keeps the last error.
pub proof fn jobs_fail_after_their_retries(
    j: job::DistributedJobModel,
    errors: Seq<Seq<char>>,
)
    requires
        j.attempt == 0,
        0 < errors.len() <= u32::MAX,
    ensures
        after_failures(j, errors).attempt == errors.len(),
        after_failures(j, errors).error_message == Some(errors.last()),
        after_failures(j, errors).id == j.id,
        after_failures(j, errors).max_retries == j.max_retries,
        exhausted(after_failures(j, errors)) <==> errors.len() >= j.max_retries,
    decreases errors.len(),
{
    if errors.len() > 1 {
        jobs_fail_after_their_retries(j, errors.drop_last());
    } else {
        assert(after_failures(j, errors.drop_last()) == j);
    }
}

/// A failure is counted and noted; nothing else of the job changes. The job is tried
/// again while it has failed fewer times than its limit, and given up otherwise.
pub proof fn failures_are_counted(
    dirs: SharedDirs,
    j: job::DistributedJobModel,
    error: Seq<char>,
)
    requires
        j.attempt < u32::MAX,
    ensures
        ({
            let next = after_failure(j, error);
            &&& next.attempt == j.attempt + 1
            &&& next.error_message == Some(error)
            &&& next == job::DistributedJobModel {
                attempt: next.attempt,
                error_message: next.error_message,
                ..j
            }
            &&& j.attempt + 1 < j.max_retries ==> next_dir(dirs, next) == dirs.pending@
            &&& j.attempt + 1 >= j.max_retries ==> next_dir(dirs, next) == dirs.failed@
        }),
{
}

/// A job whose worker fell silent is counted like a failed one; what is noted of it
/// changes only where it is given up.
pub proof fn silence_is_counted(dirs: SharedDirs, j: job::DistributedJobModel)
    requires
        j.attempt < u32::MAX,
    ensures
        ({
            let next = after_silence(j);
            &&& next.attempt == j.attempt + 1
            &&& next == job::DistributedJobModel {
                attempt: next.attempt,
                error_message: next.error_message,
                ..j
            }
            &&& j.attempt + 1 < j.max_retries ==> next.error_message == j.error_message && next_dir(
                dirs,
                next,
            ) == dirs.pending@
            &&& j.attempt + 1 >= j.max_retries ==> next.error_message == Some(
                "Stale heartbeat - max retries exceeded"@,
            ) && next_dir(dirs, next) == dirs.failed@
        }),
{
}

/// A failed job that is started over counts from zero again, without a note, and is
/// tried again if it may be tried at all.
pub proof fn failed_jobs_start_over(dirs: SharedDirs, j: job::DistributedJobModel)
    ensures
        ({
            let next = started_over(j);
            &&& next.attempt == 0
            &&& next.error_message is None
            &&& next == job::DistributedJobModel { attempt: 0, error_message: None, ..j }
            &&& j.max_retries > 0 ==> next_dir(dirs, next) == dirs.pending@
        }),
{
}

/// A heartbeat is stale once more than the timeout has passed in whole seconds; a
/// missing one always is. Once stale, it stays so until the next beat.
pub proof fn silent_heartbeats_go_stale(
    hb: Heartbeat,
    now: Timestamp,
    later: Timestamp,
    timeout_secs: u64,
)
    requires
        hb.timestamp.nanos < 1_000_000_000,
        now.nanos < 1_000_000_000,
        later.nanos < 1_000_000_000,
        timeout_secs <= i64::MAX,
    ensures
        ({
            let passed = (now.secs - hb.timestamp.secs) * 1_000_000_000 + now.nanos
                - hb.timestamp.nanos;
            stale_at(Some(hb), now, timeout_secs) <==> passed >= (timeout_secs + 1) * 1_000_000_000
        }),
        stale_at(None, now, timeout_secs),
        stale_at(Some(hb), now, timeout_secs) && (later.secs > now.secs || later.secs == now.secs
            && later.nanos >= now.nanos) ==> stale_at(Some(hb), later, timeout_secs),
{
    clock::elapsed_seconds_are_whole(now, hb.timestamp);
    clock::elapsed_seconds_are_whole(later, hb.timestamp);
}

/// A beat leaves the heartbeat in the active directory under the job's name, without
/// the file it was first written to, and touches no other file.
pub proof fn beats_are_seen<C>(
    dirs: SharedDirs,
    id: u128,
    files: Map<Seq<char>, C>,
    written: C,
    other: Seq<char>,
)
    ensures
        ({
            let after = after_steps(beating(dirs, id), files, written);
            let path = text::joined(dirs.active@, job::id_form(id) + ".heartbeat"@);
            let temp = text::joined(
                dirs.active@,
                "."@ + (job::id_form(id) + ".heartbeat"@) + ".tmp"@,
            );
            &&& after.contains_key(path)
            &&& after[path] == written
            &&& temp != path ==> !after.contains_key(temp)
            &&& other != path && other != temp ==> (after.contains_key(other)
                <==> files.contains_key(other)) && (files.contains_key(other) ==> after[other]
                == files[other])
        }),
{
    let steps = beating(dirs, id);
    assert(steps.drop_last().drop_last() =~= Seq::empty());
    reveal_with_fuel(after_steps, 3);
}

/// A job's file is named after the job, with `.job.json` behind, in its directory; it
/// is first written beside that under a hidden name.
pub proof fn job_files_are_named_after_their_jobs(dir: Seq<char>, id: u128)
    ensures
        job_path(dir, id) == text::joined(dir, job::id_form(id) + ".job.json"@),
        writing(dir, id).len() == 2,
        writing(dir, id)[0] == (FsStepModel::WriteJob {
            path: text::joined(dir, "."@ + (job::id_form(id) + ".job.json"@) + ".tmp"@),
        }),
        writing(dir, id)[1] == (FsStepModel::Rename {
            from: text::joined(dir, "."@ + (job::id_form(id) + ".job.json"@) + ".tmp"@),
            to: text::joined(dir, job::id_form(id) + ".job.json"@),
        }),
{
}

/// What is cleared away of an active job is its file and its heartbeat, and a
/// finished job's heartbeat goes too.
pub proof fn active_jobs_are_cleared_away(dirs: SharedDirs, id: u128)
    ensures
        ({
            let beat = FsStepModel::Remove {
                path: text::joined(dirs.active@, job::id_form(id) + ".heartbeat"@),
            };
            &&& clearing(dirs, id).len() == 2
            &&& clearing(dirs, id)[0] == (FsStepModel::Remove {
                path: text::joined(dirs.active@, job::id_form(id) + ".job.json"@),
            })
            &&& clearing(dirs, id)[1] == beat
            &&& completing(dirs, id).len() == 2
            &&& completing(dirs, id)[1] == beat
            &&& retrying(dirs, id).last() == (FsStepModel::Remove {
                path: text::joined(dirs.failed@, job::id_form(id) + ".job.json"@),
            })
        }),
{
}

/// The extension of a name is what stands behind its last dot; a name without a dot,
/// or with its only dot at the start, has none.
pub proof fn extensions_stand_behind_the_last_dot(stem: Seq<char>, ext: Seq<char>)
    requires
        !ext.contains('.'),
    ensures
        stem.len() > 0 ==> extension(stem.push('.') + ext) == Some(ext),
        extension(seq!['.'] + ext) is None,
        extension(ext) is None,
{
    lemma_last_dot(stem, ext);
    lemma_last_dot(Seq::empty(), ext);
    assert(Seq::<char>::empty().push('.') + ext =~= seq!['.'] + ext);
    assert((stem.push('.') + ext).skip(stem.len() as int + 1) =~= ext);
    lemma_no_dot(ext);
}

proof fn lemma_last_dot(stem: Seq<char>, ext: Seq<char>)
    requires
        !ext.contains('.'),
    ensures
        text::last_position(stem.push('.') + ext, '.') == Some(stem.len() as int),
    decreases ext.len(),
{
    let s = stem.push('.') + ext;
    if ext.len() > 0 {
        assert(ext[ext.len() - 1] == s.last());
        assert(s.drop_last() =~= stem.push('.') + ext.drop_last());
        assert(!ext.drop_last().contains('.')) by {
            if ext.drop_last().contains('.') {
                let k = choose|k: int| 0 <= k < ext.len() - 1 && ext.drop_last()[k] == '.';
                assert(ext[k] == '.');
            }
        }
        lemma_last_dot(stem, ext.drop_last());
    }
}

proof fn lemma_no_dot(s: Seq<char>)
    requires
        !s.contains('.'),
    ensures
        text::last_position(s, '.') is None,
    decreases s.len(),
{
    if s.len() > 0 {
        assert(s[s.len() - 1] == s.last());
        assert(!s.drop_last().contains('.')) by {
            if s.drop_last().contains('.') {
                let k = choose|k: int| 0 <= k < s.len() - 1 && s.drop_last()[k] == '.';
                assert(s[k] == '.');
            }
        }
        lemma_no_dot(s.drop_last());
    }
}

/// A media file is needed exactly where some job reads it.
pub proof fn media_is_needed_by_its_jobs(
    jobs: Seq<job::DistributedJobModel>,
    media_file: Seq<char>,
    i: int,
)
    ensures
        0 <= i < jobs.len() && jobs[i].media_file == media_file ==> needed_by(jobs, media_file),
        (forall|k: int| 0 <= k < jobs.len() ==> (#[trigger] jobs[k]).media_file != media_file)
            ==> !needed_by(jobs, media_file),
{
}

} // verus!
