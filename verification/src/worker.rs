//! The decisions of the background worker: which scanners run, which repositories are
//! checked for new commits, and what a static scan's result does to a skill's status.
//! Times are Unix seconds.
use vstd::prelude::*;

use crate::json::str_eq;
use crate::model::SecurityStatus;

verus! {

/// The progress message of a job that was running when the worker stopped and is queued
/// again when it starts.
pub fn recovered_message() -> (r: String)
    ensures
        r@ == "Queued (recovered after restart)"@,
{
    "Queued (recovered after restart)".to_string()
}

/// The progress message of a job the worker queues for a changed repository.
pub fn auto_index_message() -> (r: String)
    ensures
        r@ == "Queued (auto-index)"@,
{
    "Queued (auto-index)".to_string()
}

/// How many tasks of a kind run side by side: the configured number, at least one.
pub fn task_count(configured: usize) -> (r: usize)
    ensures
        r == if configured > 0 {
            configured
        } else {
            1
        },
{
    if configured > 0 {
        configured
    } else {
        1
    }
}

/// Whether the language-model security scan runs: it is switched on, and a provider and
/// an API key are configured.
pub fn ai_scan_enabled(switched_on: bool, has_provider: bool, has_api_key: bool) -> (r: bool)
    ensures
        r == (switched_on && has_provider && has_api_key),
{
    switched_on && has_provider && has_api_key
}

/// Whether a repository is checked for new commits now: it is not waiting in the queue
/// of changed repositories, and it was never indexed or was last indexed longer than the
/// minimum interval ago.
pub fn due_for_check(last_indexed_at: Option<i64>, interval_secs: i64, now: i64, queued: bool) -> (r:
    bool)
    ensures
        r == (!queued && match last_indexed_at {
            Some(t) => t < now - interval_secs,
            None => true,
        }),
{
    if queued {
        return false;
    }
    match last_indexed_at {
        Some(t) => (t as i128) < (now as i128) - (interval_secs as i128),
        None => true,
    }
}

/// The ref whose commit is read for a repository: the one it records, else `HEAD`.
pub fn remote_ref(git_ref: Option<&str>) -> (r: &str)
    ensures
        r@ == match git_ref {
            Some(g) => g@,
            None => "HEAD"@,
        },
{
    match git_ref {
        Some(g) => g,
        None => "HEAD",
    }
}

/// What a static scan's result does to a skill's security status: a scan that found
/// files moves an unscanned skill to checked; a skill without files is checked; a failed
/// scan (`None`) changes nothing. `None` in the result means the status stays.
pub fn status_after_static_scan(found_files: Option<bool>, current: &str) -> (r: Option<
    SecurityStatus,
>)
    ensures
        r == match found_files {
            Some(true) => if current@ == "unscanned"@ {
                Some(SecurityStatus::Checked)
            } else {
                None
            },
            Some(false) => Some(SecurityStatus::Checked),
            None => None,
        },
{
    match found_files {
        Some(true) => if str_eq(current, "unscanned") {
            Some(SecurityStatus::Checked)
        } else {
            None
        },
        Some(false) => Some(SecurityStatus::Checked),
        None => None,
    }
}

/// What a static scanner does after looking for the next unscanned skill.
#[derive(Debug, Clone, Copy, PartialEq, Eq, Structural)]
pub enum ScanPickStep {
    /// Scan the skill found.
    Scan,
    /// Nothing after the last skill scanned: look again from the start.
    FromStart,
    /// Nothing to scan, or the lookup failed: wait a minute.
    Wait,
}

/// What a static scanner does, given whether the lookup succeeded, whether it found a
/// skill, and whether it looked after a skill it scanned before.
pub fn scan_pick_step(lookup_ok: bool, found: bool, after_previous: bool) -> (r: ScanPickStep)
    ensures
        r == if !lookup_ok {
            ScanPickStep::Wait
        } else if found {
            ScanPickStep::Scan
        } else if after_previous {
            ScanPickStep::FromStart
        } else {
            ScanPickStep::Wait
        },
{
    if !lookup_ok {
        ScanPickStep::Wait
    } else if found {
        ScanPickStep::Scan
    } else if after_previous {
        ScanPickStep::FromStart
    } else {
        ScanPickStep::Wait
    }
}

} // verus!
