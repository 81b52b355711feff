//! The decisions of repository indexing: accepting a request, reusing or superseding
//! jobs, which queued jobs the worker starts, and when a changed repository is indexed
//! again. Job identifiers are the 128-bit values of UUIDs; times are Unix seconds.
use vstd::prelude::*;

use crate::encoding::{hash_string, hex_text, sha256_digest};
use crate::error::{error_view, AppError, ErrorKind};
use crate::git_url::{git_url_problem, normalize_git_url, normalized_git_url, validate_git_url};
use crate::json::str_eq;
use crate::model::IndexJobStatus;
use crate::text::{chars_of, concat, string_of, strs_of, trim, trim_vec};

verus! {

// ---------------------------------------------------------------------------
// Submitting an index request
// ---------------------------------------------------------------------------

/// The key under which jobs for one repository are found: the SHA-256 of its normalized
/// URL, in hexadecimal.
pub open spec fn url_key(normalized_url: Seq<char>) -> Seq<char> {
    hex_text(sha256_digest(vstd::utf8::encode_utf8(normalized_url)))
}

/// What an index request is checked into: its normalized URL and that URL's key; refused
/// when the URL is blank or fails the URL checks.
pub open spec fn submission_check(git_url: Seq<char>) -> Result<
    (Seq<char>, Seq<char>),
    (ErrorKind, Seq<char>),
> {
    if trim(git_url).len() == 0 {
        Err((ErrorKind::BadRequest, "git_url is required"@))
    } else {
        let url = normalized_git_url(git_url);
        match git_url_problem(url) {
            Some(p) => Err((ErrorKind::BadRequest, crate::git_url::git_url_problem_message(p))),
            None => Ok((url, url_key(url))),
        }
    }
}

/// The normalized URL of an index request and its key.
pub fn prepare_index_submission(git_url: &str) -> (r: Result<(String, String), AppError>)
    ensures
        match r {
            Ok(v) => submission_check(git_url@) == Ok::<
                (Seq<char>, Seq<char>),
                (ErrorKind, Seq<char>),
            >((v.0@, v.1@)),
            Err(e) => submission_check(git_url@) == Err::<
                (Seq<char>, Seq<char>),
                (ErrorKind, Seq<char>),
            >(error_view(e)),
        },
{
    if trim_vec(&chars_of(git_url)).len() == 0 {
        return Err(AppError::BadRequest("git_url is required".to_string()));
    }
    let url = normalize_git_url(git_url);
    match validate_git_url(url.as_str()) {
        Ok(()) => {},
        Err(e) => {
            return Err(e);
        },
    }
    let key = hash_string(url.as_str());
    Ok((url, key))
}

/// What a submitted index request leads to.
#[derive(Debug, Clone, Copy, PartialEq, Eq, Structural)]
pub enum SubmitPlan {
    /// An existing job already covers the request; its identifier is answered.
    Reuse(u128),
    /// The active job for an older commit is superseded, then a new job is created.
    SupersedeThenCreate(u128),
    /// A new job is created.
    Create,
}

/// What a request leads to, given whether it forces a new scan (admins only), the
/// completed job for the same URL, ref, subdirectory, slug and commit if any, and the
/// active job for the URL (with its commit) if any.
pub open spec fn submit_plan_of(
    force: bool,
    completed: Option<u128>,
    active: Option<(u128, Seq<char>)>,
    commit_sha: Seq<char>,
) -> SubmitPlan {
    if force {
        SubmitPlan::Create
    } else if completed is Some {
        SubmitPlan::Reuse(completed->0)
    } else {
        match active {
            Some(a) => if a.1 == commit_sha {
                SubmitPlan::Reuse(a.0)
            } else {
                SubmitPlan::SupersedeThenCreate(a.0)
            },
            None => SubmitPlan::Create,
        }
    }
}

/// What a submitted index request leads to; `force` counts only for an admin.
pub fn submit_plan(
    requested_force: bool,
    is_admin: bool,
    completed: Option<u128>,
    active: Option<(u128, &str)>,
    commit_sha: &str,
) -> (r: SubmitPlan)
    ensures
        r == submit_plan_of(
            requested_force && is_admin,
            completed,
            match active {
                Some(a) => Some((a.0, a.1@)),
                None => None,
            },
            commit_sha@,
        ),
{
    if requested_force && is_admin {
        return SubmitPlan::Create;
    }
    match completed {
        Some(id) => SubmitPlan::Reuse(id),
        None => match active {
            Some((id, sha)) => if str_eq(sha, commit_sha) {
                SubmitPlan::Reuse(id)
            } else {
                SubmitPlan::SupersedeThenCreate(id)
            },
            None => SubmitPlan::Create,
        },
    }
}

// ---------------------------------------------------------------------------
// Starting queued jobs
// ---------------------------------------------------------------------------

/// How many job slots are free: the maximum less the running jobs, never below zero.
pub fn available_slots(max_jobs: usize, running: usize) -> (r: usize)
    ensures
        r as int == if running < max_jobs {
            max_jobs - running
        } else {
            0
        },
{
    if running < max_jobs {
        max_jobs - running
    } else {
        0
    }
}

/// How many queued jobs are fetched to fill `slots` free slots: three per slot, at least
/// twenty.
pub fn pending_fetch_limit(slots: usize) -> (r: usize)
    requires
        slots <= usize::MAX / 3,
    ensures
        r as int == if 3 * slots > 20 {
            3 * slots
        } else {
            20
        },
{
    let wanted: usize = slots * 3;
    if wanted > 20 {
        wanted
    } else {
        20
    }
}

/// Which queued jobs start, by position in the queue: in queue order, each job whose
/// repository key is neither running nor taken by a job started before it, until the free
/// slots are used.
pub open spec fn dispatched(keys: Seq<Seq<char>>, running: Seq<Seq<char>>, slots: nat) -> Seq<int>
    decreases keys.len(),
{
    if keys.len() == 0 {
        Seq::empty()
    } else {
        let prev = dispatched(keys.drop_last(), running, slots);
        let i = keys.len() - 1;
        let busy = running.contains(keys[i]) || exists|k: int|
            0 <= k < prev.len() && keys[#[trigger] prev[k]] == keys[i];
        if prev.len() < slots && !busy {
            prev.push(i)
        } else {
            prev
        }
    }
}

pub(crate) fn contains_str(v: &Vec<String>, s: &str) -> (r: bool)
    ensures
        r == strs_of(v@).contains(s@),
{
    let mut i: usize = 0;
    while i < v.len()
        invariant
            i <= v.len(),
            forall|k: int| 0 <= k < i ==> strs_of(v@)[k] != s@,
        decreases v.len() - i,
    {
        if str_eq(v[i].as_str(), s) {
            assert(strs_of(v@)[i as int] == s@);
            return true;
        }
        i += 1;
    }
    false
}

/// Which queued jobs (by their repository keys, in queue order) start, given the keys
/// of the running jobs and the free slots.
pub fn select_jobs_to_dispatch(keys: &Vec<String>, running: &Vec<String>, slots: usize) -> (r: Vec<
    usize,
>)
    ensures
        r@.map_values(|i: usize| i as int) == dispatched(strs_of(keys@), strs_of(running@), slots as nat),
{
    let ghost ks = strs_of(keys@);
    let ghost rs = strs_of(running@);
    let mut picked: Vec<usize> = Vec::new();
    let mut taken: Vec<String> = Vec::new();
    let mut i: usize = 0;
    assert(ks.take(0) =~= Seq::<Seq<char>>::empty());
    assert(picked@.map_values(|i: usize| i as int) =~= Seq::<int>::empty());
    while i < keys.len()
        invariant
            i <= keys.len(),
            ks == strs_of(keys@),
            rs == strs_of(running@),
            picked@.map_values(|i: usize| i as int) == dispatched(ks.take(i as int), rs, slots as nat),
            taken@.len() == picked@.len(),
            forall|k: int| 0 <= k < picked@.len() ==> #[trigger] picked@[k] < i,
            forall|k: int| 0 <= k < picked@.len() ==> #[trigger] strs_of(taken@)[k] == ks[picked@[k] as int],
        decreases keys.len() - i,
    {
        let ghost prev = dispatched(ks.take(i as int), rs, slots as nat);
        let ghost keys_i = ks.take(i + 1);
        assert(keys_i.drop_last() =~= ks.take(i as int));
        assert(keys_i[i as int] == ks[i as int]);
        let key = keys[i].as_str();
        let busy = contains_str(running, key) || contains_str(&taken, key);
        proof {
            let pv = picked@.map_values(|i: usize| i as int);
            assert forall|k: int| 0 <= k < prev.len() implies keys_i[#[trigger] prev[k]] == ks[prev[k]] by {
                assert(prev[k] == picked@[k] as int);
            }
            if strs_of(taken@).contains(key@) {
                let k = choose|k: int| 0 <= k < strs_of(taken@).len() && strs_of(taken@)[k] == key@;
                assert(prev[k] == picked@[k] as int);
                assert(keys_i[prev[k]] == keys_i[i as int]);
            }
            if exists|k: int| 0 <= k < prev.len() && keys_i[#[trigger] prev[k]] == keys_i[i as int] {
                let k = choose|k: int| 0 <= k < prev.len() && keys_i[#[trigger] prev[k]] == keys_i[i as int];
                assert(prev[k] == picked@[k] as int);
                assert(strs_of(taken@)[k] == key@);
            }
        }
        if picked.len() < slots && !busy {
            let ghost old_taken = strs_of(taken@);
            picked.push(i);
            taken.push(key.to_string());
            assert(strs_of(taken@) =~= old_taken.push(key@));
            assert(key@ == ks[i as int]);
            assert(picked@.map_values(|i: usize| i as int) =~= prev.push(i as int));
        }
        i += 1;
    }
    assert(ks.take(keys.len() as int) =~= ks);
    picked
}

/// The worker never starts more jobs than it has free slots, never starts a job for a
/// repository that has a running job, and never starts two jobs for one repository;
/// it starts jobs in queue order.
pub proof fn law_dispatch_one_job_per_repository(
    keys: Seq<Seq<char>>,
    running: Seq<Seq<char>>,
    slots: nat,
)
    ensures
        dispatched(keys, running, slots).len() <= slots,
        forall|k: int|
            0 <= k < dispatched(keys, running, slots).len() ==> 0 <= #[trigger] dispatched(
                keys,
                running,
                slots,
            )[k] < keys.len() && !running.contains(keys[dispatched(keys, running, slots)[k]]),
        forall|a: int, b: int|
            0 <= a < b < dispatched(keys, running, slots).len() ==> #[trigger] dispatched(
                keys,
                running,
                slots,
            )[a] < #[trigger] dispatched(keys, running, slots)[b] && keys[dispatched(
                keys,
                running,
                slots,
            )[a]] != keys[dispatched(keys, running, slots)[b]],
    decreases keys.len(),
{
    if keys.len() > 0 {
        let d = keys.drop_last();
        law_dispatch_one_job_per_repository(d, running, slots);
        let prev = dispatched(d, running, slots);
        assert forall|k: int| 0 <= k < prev.len() implies keys[#[trigger] prev[k]] == d[prev[k]] by {}
    }
}

/// What the worker does with a job of a given type.
#[derive(Debug, Clone, Copy, PartialEq, Eq, Structural)]
pub enum JobAction {
    /// Index the repository.
    AutoImport,
    /// Mark the job completed.
    Resync,
    /// Mark the job failed as of an unknown type.
    Unknown,
}

/// What the worker does with a job of the type `job_type`.
pub open spec fn job_action_of(job_type: Seq<char>) -> JobAction {
    if job_type == "auto_import"@ {
        JobAction::AutoImport
    } else if job_type == "resync"@ {
        JobAction::Resync
    } else {
        JobAction::Unknown
    }
}

/// What the worker does with a job of the type `job_type`.
pub fn job_action(job_type: &str) -> (r: JobAction)
    ensures
        r == job_action_of(job_type@),
{
    if str_eq(job_type, "auto_import") {
        JobAction::AutoImport
    } else if str_eq(job_type, "resync") {
        JobAction::Resync
    } else {
        JobAction::Unknown
    }
}

/// The error a job of an unknown type fails with.
pub fn unknown_job_message(job_type: &str) -> (r: String)
    ensures
        r@ == "unknown job type: "@ + job_type@,
{
    string_of(&concat(&chars_of("unknown job type: "), &chars_of(job_type)))
}

// ---------------------------------------------------------------------------
// Re-indexing changed repositories
// ---------------------------------------------------------------------------

/// What a repository check does with a repository.
#[derive(Debug, Clone, Copy, PartialEq, Eq, Structural)]
pub enum RepoCheck {
    /// The remote commit is the one indexed: nothing to do.
    Unchanged,
    /// A completed job already indexed the remote commit: only the record is updated.
    MarkIndexed,
    /// The repository changed: it is queued for indexing.
    Queue,
}

/// What a repository check does, given the remote commit, the commit last indexed, and
/// whether a completed job already indexed the remote commit.
pub fn repo_check(current_sha: &str, indexed_sha: &str, already_indexed: bool) -> (r: RepoCheck)
    ensures
        r == if current_sha@ == indexed_sha@ {
            RepoCheck::Unchanged
        } else if already_indexed {
            RepoCheck::MarkIndexed
        } else {
            RepoCheck::Queue
        },
{
    if str_eq(current_sha, indexed_sha) {
        RepoCheck::Unchanged
    } else if already_indexed {
        RepoCheck::MarkIndexed
    } else {
        RepoCheck::Queue
    }
}

/// When a changed repository's indexing may start: the minimum interval after it was
/// last indexed, but not before now; now when it was never indexed.
pub fn expected_start_at(last_indexed_at: Option<i64>, interval_secs: i64, now: i64) -> (r: i64)
    requires
        last_indexed_at matches Some(t) ==> i64::MIN <= t + interval_secs <= i64::MAX,
    ensures
        r == match last_indexed_at {
            Some(t) => if t + interval_secs > now {
                t + interval_secs
            } else {
                now as int
            },
            None => now as int,
        },
{
    match last_indexed_at {
        Some(t) => {
            let due = t + interval_secs;
            if due > now {
                due
            } else {
                now
            }
        },
        None => now,
    }
}


// ---------------------------------------------------------------------------
// Running a job
// ---------------------------------------------------------------------------

/// Whether a queued job still runs when it starts.
#[derive(Debug, Clone, Copy, PartialEq, Eq, Structural)]
pub enum FreshnessStep {
    /// The job runs.
    Proceed,
    /// The repository moved on since the job was queued: the job is superseded and a new
    /// one is queued for the remote commit.
    Requeue,
}

/// Whether a job queued for the commit `job_sha` (empty when none was recorded) runs,
/// given the remote commit now (`None` when it could not be read).
pub fn freshness_step(job_sha: &str, remote_sha: Option<&str>) -> (r: FreshnessStep)
    ensures
        r == (if job_sha@.len() > 0 && (remote_sha matches Some(s) && s@ != job_sha@) {
            FreshnessStep::Requeue
        } else {
            FreshnessStep::Proceed
        }),
{
    if job_sha.is_empty() {
        return FreshnessStep::Proceed;
    }
    match remote_sha {
        Some(s) => if !str_eq(s, job_sha) {
            FreshnessStep::Requeue
        } else {
            FreshnessStep::Proceed
        },
        None => FreshnessStep::Proceed,
    }
}

/// The progress message of a job queued in place of a superseded one.
pub fn requeued_message() -> (r: String)
    ensures
        r@ == "Queued (superseded stale job)"@,
{
    "Queued (superseded stale job)".to_string()
}

/// How a finished job is recorded: its state, progress, progress message and error.
#[derive(Debug, Clone, PartialEq)]
pub struct JobOutcome {
    pub status: IndexJobStatus,
    pub progress_pct: i32,
    pub progress_message: String,
    pub error_message: Option<String>,
}

/// How a job is recorded when its import succeeded (`None`) or failed with a message.
pub fn job_outcome(error: Option<&str>) -> (r: JobOutcome)
    ensures
        r.progress_pct == 100,
        match error {
            None => r.status == IndexJobStatus::Completed && r.progress_message@ == "Done"@
                && r.error_message is None,
            Some(m) => {
                &&& r.status == IndexJobStatus::Failed
                &&& r.progress_message@ == "Failed: "@ + m@
                &&& r.error_message matches Some(e) && e@ == m@
            },
        },
{
    match error {
        None => JobOutcome {
            status: IndexJobStatus::Completed,
            progress_pct: 100,
            progress_message: "Done".to_string(),
            error_message: None,
        },
        Some(m) => JobOutcome {
            status: IndexJobStatus::Failed,
            progress_pct: 100,
            progress_message: string_of(&concat(&chars_of("Failed: "), &chars_of(m))),
            error_message: Some(m.to_string()),
        },
    }
}


/// The repository key of a queued job: the one recorded with it, else the key of its
/// normalized URL.
pub fn job_repository_key(url_hash: Option<&str>, git_url: &str) -> (r: String)
    ensures
        r@ == match url_hash {
            Some(h) => h@,
            None => url_key(normalized_git_url(git_url@)),
        },
{
    match url_hash {
        Some(h) => h.to_string(),
        None => hash_string(normalize_git_url(git_url).as_str()),
    }
}

} // verus!
