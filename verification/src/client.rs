//! Decisions of the web client that do not touch the page: how an error is explained,
//! how old something is, which badge a security state wears, where links lead, and how
//! the progress connection reconnects.
use vstd::prelude::*;

use crate::github_auth::{append_query_pair, parse_url, parsed_url, query_pair_appended};
use crate::json::str_eq;
use crate::llm_eval::byte_len;
use crate::model::{IndexJobStatus, SecurityStatus};
use crate::text::{
    chars_of, concat, find_char_at, find_seq, find_seq_at, first_index, has_prefix, is_upper,
    slice_vec, string_of, trim, trim_end_matches, trim_end_matches_at, trim_vec,
};

verus! {

broadcast use vstd::string::group_string_axioms;

// ---------------------------------------------------------------------------
// Errors
// ---------------------------------------------------------------------------

/// How an error message is explained to the user.
#[derive(Debug, Clone, Copy, PartialEq, Eq, Structural)]
pub enum FriendlyError {
    SessionExpired,
    NoPermission,
    NotFound,
    Timeout,
    Network,
    Server,
    /// The message reads as a sentence from the server and is shown as it is.
    Message,
    Unexpected,
}

/// Whether `p` occurs in `s`.
pub open spec fn mentions(s: Seq<char>, p: Seq<char>) -> bool {
    find_seq(s, p) >= 0
}

/// How an error message is explained: by the first of these that it mentions — an
/// authorization failure, a permission failure, a missing resource, a timeout, a network
/// failure, a server failure — or shown as it is when it reads as a short sentence from
/// the server (an upper-case first letter, under 200 bytes, no `Error: ` and no `at `).
pub open spec fn friendly_error_of(e: Seq<char>) -> FriendlyError {
    if mentions(e, "401"@) || mentions(e, "Unauthorized"@) {
        FriendlyError::SessionExpired
    } else if mentions(e, "403"@) || mentions(e, "Forbidden"@) {
        FriendlyError::NoPermission
    } else if mentions(e, "404"@) || mentions(e, "Not Found"@) {
        FriendlyError::NotFound
    } else if mentions(e, "timeout"@) || mentions(e, "Timeout"@) {
        FriendlyError::Timeout
    } else if mentions(e, "NetworkError"@) || mentions(e, "fetch"@) {
        FriendlyError::Network
    } else if mentions(e, "500"@) || mentions(e, "502"@) || mentions(e, "503"@) || mentions(
        e,
        "ConnectionRefused"@,
    ) || mentions(e, "Proxy connection failed"@) {
        FriendlyError::Server
    } else if e.len() > 0 && is_upper(e[0]) && byte_len(e) < 200 && !mentions(e, "Error: "@)
        && !mentions(e, "at "@) {
        FriendlyError::Message
    } else {
        FriendlyError::Unexpected
    }
}

fn contains(s: &Vec<char>, p: &str) -> (r: bool)
    ensures
        r == mentions(s@, p@),
{
    let pv = chars_of(p);
    if pv.len() == 0 {
        assert(s@.subrange(0, 0) =~= pv@);
        return true;
    }
    assert(s@.subrange(0, s.len() as int) =~= s@);
    find_seq_at(s, 0, s.len(), &pv).is_some()
}

/// How the error message `error` is explained to the user.
pub fn friendly_error(error: &str) -> (r: FriendlyError)
    ensures
        r == friendly_error_of(error@),
{
    let e = chars_of(error);
    if contains(&e, "401") || contains(&e, "Unauthorized") {
        FriendlyError::SessionExpired
    } else if contains(&e, "403") || contains(&e, "Forbidden") {
        FriendlyError::NoPermission
    } else if contains(&e, "404") || contains(&e, "Not Found") {
        FriendlyError::NotFound
    } else if contains(&e, "timeout") || contains(&e, "Timeout") {
        FriendlyError::Timeout
    } else if contains(&e, "NetworkError") || contains(&e, "fetch") {
        FriendlyError::Network
    } else if contains(&e, "500") || contains(&e, "502") || contains(&e, "503") || contains(
        &e,
        "ConnectionRefused",
    ) || contains(&e, "Proxy connection failed") {
        FriendlyError::Server
    } else if e.len() > 0 && 'A' <= e[0] && e[0] <= 'Z' && error.len() < 200 && !contains(
        &e,
        "Error: ",
    ) && !contains(&e, "at ") {
        FriendlyError::Message
    } else {
        FriendlyError::Unexpected
    }
}

// ---------------------------------------------------------------------------
// Times
// ---------------------------------------------------------------------------

/// How long ago something happened, in the unit it is shown in.
#[derive(Debug, Clone, Copy, PartialEq, Eq, Structural)]
pub enum RelativeAge {
    JustNow,
    Minutes(i64),
    Hours(i64),
    Days(i64),
    Months(i64),
    Years(i64),
}

/// The age shown for something `secs` seconds old: just now under a minute, then whole
/// minutes, hours, days, months of thirty days and years of 365 days.
pub open spec fn relative_age_of(secs: i64) -> RelativeAge {
    if secs < 60 {
        RelativeAge::JustNow
    } else if secs < 3600 {
        RelativeAge::Minutes((secs / 60) as i64)
    } else if secs < 86400 {
        RelativeAge::Hours((secs / 3600) as i64)
    } else if secs < 2592000 {
        RelativeAge::Days((secs / 86400) as i64)
    } else if secs < 31536000 {
        RelativeAge::Months((secs / 86400 / 30) as i64)
    } else {
        RelativeAge::Years((secs / 86400 / 365) as i64)
    }
}

/// The age shown for something `secs` seconds old.
pub fn relative_age(secs: i64) -> (r: RelativeAge)
    ensures
        r == relative_age_of(secs),
{
    if secs < 60 {
        RelativeAge::JustNow
    } else if secs < 3600 {
        RelativeAge::Minutes(secs / 60)
    } else if secs < 86400 {
        RelativeAge::Hours(secs / 3600)
    } else if secs < 2592000 {
        RelativeAge::Days(secs / 86400)
    } else if secs < 31536000 {
        RelativeAge::Months(secs / 86400 / 30)
    } else {
        RelativeAge::Years(secs / 86400 / 365)
    }
}

// ---------------------------------------------------------------------------
// Small display rules
// ---------------------------------------------------------------------------

/// A token as the API takes it: trimmed, and none when blank.
pub fn token_option(token: &str) -> (r: Option<String>)
    ensures
        match r {
            Some(t) => trim(token@).len() > 0 && t@ == trim(token@),
            None => trim(token@).len() == 0,
        },
{
    let t = trim_vec(&chars_of(token));
    if t.len() == 0 {
        None
    } else {
        Some(string_of(&t))
    }
}

/// The style class of a security state's badge.
pub open spec fn badge_class(status: SecurityStatus) -> Seq<char> {
    match status {
        SecurityStatus::Verified => "sb-verified"@,
        SecurityStatus::Checked => "sb-checked"@,
        SecurityStatus::Scanning => "sb-scanning"@,
        SecurityStatus::Suspicious => "sb-suspicious"@,
        SecurityStatus::Malicious => "sb-malicious"@,
        SecurityStatus::Unscanned => "sb-unscanned"@,
    }
}

/// The style class of a security state's badge.
pub fn security_badge_modifier(status: &SecurityStatus) -> (r: &'static str)
    ensures
        r@ == badge_class(*status),
{
    match status {
        SecurityStatus::Verified => "sb-verified",
        SecurityStatus::Checked => "sb-checked",
        SecurityStatus::Scanning => "sb-scanning",
        SecurityStatus::Suspicious => "sb-suspicious",
        SecurityStatus::Malicious => "sb-malicious",
        SecurityStatus::Unscanned => "sb-unscanned",
    }
}

/// The domain, owner and name of a repository slug like `github.com/owner/name`: the text
/// before the first `/`, the text up to the second, and the rest (empty where the slug
/// has fewer parts).
pub open spec fn slug_parts(slug: Seq<char>) -> (Seq<char>, Seq<char>, Seq<char>) {
    let i = first_index(slug, '/');
    if i < 0 {
        (slug, Seq::empty(), Seq::empty())
    } else {
        let rest = slug.subrange(i + 1, slug.len() as int);
        let j = first_index(rest, '/');
        if j < 0 {
            (slug.subrange(0, i), rest, Seq::empty())
        } else {
            (slug.subrange(0, i), rest.subrange(0, j), rest.subrange(j + 1, rest.len() as int))
        }
    }
}

/// The domain, owner and name of a repository slug, as a repository page's route takes
/// them.
pub fn repo_route_parts(slug: &str) -> (r: (String, String, String))
    ensures
        (r.0@, r.1@, r.2@) == slug_parts(slug@),
{
    let v = chars_of(slug);
    let n = v.len();
    assert(v@.subrange(0, n as int) =~= v@);
    match find_char_at(&v, 0, n, '/') {
        None => (slug.to_string(), String::new(), String::new()),
        Some(i) => {
            let ghost rest = v@.subrange(i + 1, n as int);
            match find_char_at(&v, i + 1, n, '/') {
                None => (string_of(&slice_vec(&v, 0, i)), string_of(&slice_vec(&v, i + 1, n)), String::new()),
                Some(j) => {
                    assert(rest.subrange(0, j as int) =~= v@.subrange(i + 1, i + 1 + j));
                    assert(rest.subrange(j + 1, rest.len() as int) =~= v@.subrange(
                        i + 1 + j + 1,
                        n as int,
                    ));
                    (
                        string_of(&slice_vec(&v, 0, i)),
                        string_of(&slice_vec(&v, i + 1, i + 1 + j)),
                        string_of(&slice_vec(&v, i + 2 + j, n)),
                    )
                },
            }
        },
    }
}

/// What a browsing-history entry links to.
#[derive(Debug, Clone, Copy, PartialEq, Eq, Structural)]
pub enum HistoryKind {
    Skill,
    Repo,
    Flock,
    Other,
}

/// What kind of page a browsing-history entry of `resource_type` links to.
pub open spec fn history_kind_of(resource_type: Seq<char>) -> HistoryKind {
    if resource_type == "skill"@ {
        HistoryKind::Skill
    } else if resource_type == "repo"@ {
        HistoryKind::Repo
    } else if resource_type == "flock"@ {
        HistoryKind::Flock
    } else {
        HistoryKind::Other
    }
}

/// What kind of page a browsing-history entry links to.
pub fn history_kind(resource_type: &str) -> (r: HistoryKind)
    ensures
        r == history_kind_of(resource_type@),
{
    if str_eq(resource_type, "skill") {
        HistoryKind::Skill
    } else if str_eq(resource_type, "repo") {
        HistoryKind::Repo
    } else if str_eq(resource_type, "flock") {
        HistoryKind::Flock
    } else {
        HistoryKind::Other
    }
}

// ---------------------------------------------------------------------------
// Sign-in link
// ---------------------------------------------------------------------------

/// The address that starts a GitHub sign-in: the API's `/auth/github/start`, with the
/// page to return to as `return_to` when known; the bare address when it does not parse.
pub open spec fn login_link(api_base: Seq<char>, return_to: Option<Seq<char>>) -> Seq<char> {
    let endpoint = trim_end_matches(api_base, seq!['/']) + "/auth/github/start"@;
    match parsed_url(endpoint) {
        Err(_) => endpoint,
        Ok(u) => match return_to {
            Some(rt) => query_pair_appended(u.3, "return_to"@, rt),
            None => u.3,
        },
    }
}

/// The address that starts a GitHub sign-in from the page `return_to`.
pub fn github_login_url(api_base: &str, return_to: Option<&str>) -> (r: String)
    ensures
        r@ == login_link(
            api_base@,
            match return_to {
                Some(s) => Some(s@),
                None => None,
            },
        ),
{
    let v = chars_of(api_base);
    let slash = vec!['/'];
    assert(slash@ =~= seq!['/']);
    let n = v.len();
    assert(v@.subrange(0, n as int) =~= v@);
    let b = trim_end_matches_at(&v, 0, n, &slash);
    let endpoint = string_of(&concat(&slice_vec(&v, 0, b), &chars_of("/auth/github/start")));
    match parse_url(endpoint.as_str()) {
        Err(_) => endpoint,
        Ok(u) => match return_to {
            Some(rt) => append_query_pair(&u, "return_to", rt).as_str().to_string(),
            None => u.as_str().to_string(),
        },
    }
}

// ---------------------------------------------------------------------------
// Progress connection
// ---------------------------------------------------------------------------

/// The wait before the next reconnect after one that waited `current` milliseconds:
/// doubled, at most thirty seconds.
pub fn next_reconnect_delay(current: u32) -> (r: u32)
    ensures
        r as int == if 2 * current < 30000 {
            2 * current
        } else {
            30000
        },
{
    if current < 15000 {
        current * 2
    } else {
        30000
    }
}

/// The message that subscribes to a job's progress.
pub open spec fn subscribe_text(job_id: Seq<char>) -> Seq<char> {
    "{\"action\":\"subscribe\",\"job_id\":\""@ + job_id + "\"}"@
}

/// The message that subscribes to a job's progress.
pub fn subscribe_message(job_id: &str) -> (r: String)
    ensures
        r@ == subscribe_text(job_id@),
{
    string_of(
        &concat(
            &concat(&chars_of("{\"action\":\"subscribe\",\"job_id\":\""), &chars_of(job_id)),
            &chars_of("\"}"),
        ),
    )
}

/// A job's progress log after a message arrives: a non-empty message is added unless it
/// repeats the last one.
pub open spec fn log_after(log: Seq<Seq<char>>, message: Seq<char>) -> Seq<Seq<char>> {
    if message.len() > 0 && (log.len() == 0 || log.last() != message) {
        log.push(message)
    } else {
        log
    }
}

/// Adds a progress message to a job's log.
pub fn append_progress_message(log: &mut Vec<String>, message: &str)
    ensures
        crate::text::strs_of(final(log)@) == log_after(crate::text::strs_of(old(log)@), message@),
{
    let ghost before = crate::text::strs_of(log@);
    if message.is_empty() {
        return;
    }
    let n = log.len();
    if n == 0 || !str_eq(log[n - 1].as_str(), message) {
        log.push(message.to_string());
        assert(crate::text::strs_of(log@) =~= before.push(message@));
    }
}

/// The progress connection's address: the page origin with its first `http` made `ws`,
/// then `/api/v1/ws`.
pub open spec fn progress_socket_address(origin: Seq<char>) -> Seq<char> {
    let i = find_seq(origin, "http"@);
    let base = if i >= 0 {
        origin.subrange(0, i) + "ws"@ + origin.subrange(i + 4, origin.len() as int)
    } else {
        origin
    };
    base + "/api/v1/ws"@
}

/// The progress connection's address for a page origin.
pub fn progress_socket_url(origin: &str) -> (r: String)
    ensures
        r@ == progress_socket_address(origin@),
{
    let v = chars_of(origin);
    let pat = chars_of("http");
    proof {
        reveal_strlit("http");
    }
    let n = v.len();
    assert(v@.subrange(0, n as int) =~= v@);
    let base = match find_seq_at(&v, 0, n, &pat) {
        Some(i) => concat(&concat(&slice_vec(&v, 0, i), &chars_of("ws")), &slice_vec(&v, i + 4, n)),
        None => v,
    };
    string_of(&concat(&base, &chars_of("/api/v1/ws")))
}


// ---------------------------------------------------------------------------
// Index job progress
// ---------------------------------------------------------------------------

/// The badge class of an index job's state.
pub open spec fn status_badge(status: Seq<char>) -> Seq<char> {
    if status == "completed"@ {
        "pill badge-verified"@
    } else if status == "failed"@ {
        "pill badge-rejected"@
    } else if status == "running"@ {
        "pill badge-scanning"@
    } else {
        "pill"@
    }
}

/// The badge class of an index job's state.
pub fn job_status_class(status: &str) -> (r: &'static str)
    ensures
        r@ == status_badge(status@),
{
    if str_eq(status, "completed") {
        "pill badge-verified"
    } else if str_eq(status, "failed") {
        "pill badge-rejected"
    } else if str_eq(status, "running") {
        "pill badge-scanning"
    } else {
        "pill"
    }
}

/// The progress at which each step of an index job begins: queued, cloning, scanning,
/// categorizing, persisting, finalizing, done.
pub fn index_step_thresholds() -> (r: Vec<i32>)
    ensures
        r@ == seq![0i32, 10, 30, 50, 70, 95, 100],
{
    let r = vec![0i32, 10, 30, 50, 70, 95, 100];
    assert(r@ =~= seq![0i32, 10, 30, 50, 70, 95, 100]);
    r
}

/// The class of a progress step that begins at `threshold` when the job is at `pct`:
/// done once passed, active while at it.
pub fn step_class(pct: i32, threshold: i32) -> (r: &'static str)
    ensures
        r@ == if pct > threshold {
            "scan-step done"@
        } else if pct == threshold {
            "scan-step active"@
        } else {
            "scan-step"@
        },
{
    if pct > threshold {
        "scan-step done"
    } else if pct == threshold {
        "scan-step active"
    } else {
        "scan-step"
    }
}


// ---------------------------------------------------------------------------
// The index page
// ---------------------------------------------------------------------------

/// Why a repository cannot be submitted for indexing from the page.
#[derive(Debug, Clone, Copy, PartialEq, Eq, Structural)]
pub enum IndexInputError {
    /// Nobody is signed in.
    NotSignedIn,
    /// No repository was entered.
    MissingUrl,
}

/// The repository URL the page submits: the entry trimmed, with `owner/repo` taken as a
/// GitHub repository.
pub open spec fn index_target(raw: Seq<char>) -> Seq<char> {
    let t = trim(raw);
    if !mentions(t, "://"@) && !mentions(t, "git@"@) {
        "https://github.com/"@ + t
    } else {
        t
    }
}

/// The repository URL the page submits for indexing, or why it submits none.
pub fn index_submission_url(token: &str, raw: &str) -> (r: Result<String, IndexInputError>)
    ensures
        match r {
            Ok(u) => trim(token@).len() > 0 && trim(raw@).len() > 0 && u@ == index_target(raw@),
            Err(e) => if trim(token@).len() == 0 {
                e == IndexInputError::NotSignedIn
            } else {
                trim(raw@).len() == 0 && e == IndexInputError::MissingUrl
            },
        },
{
    if trim_vec(&chars_of(token)).len() == 0 {
        return Err(IndexInputError::NotSignedIn);
    }
    let t = trim_vec(&chars_of(raw));
    if t.len() == 0 {
        return Err(IndexInputError::MissingUrl);
    }
    if !contains(&t, "://") && !contains(&t, "git@") {
        Ok(string_of(&concat(&chars_of("https://github.com/"), &t)))
    } else {
        Ok(string_of(&t))
    }
}

/// The icon class of an index job in the list.
pub open spec fn job_icon(status: IndexJobStatus) -> Seq<char> {
    match status {
        IndexJobStatus::Completed => "scan-job-icon done"@,
        IndexJobStatus::Failed => "scan-job-icon failed"@,
        IndexJobStatus::Running => "scan-job-icon running"@,
        IndexJobStatus::Superseded => "scan-job-icon failed"@,
        IndexJobStatus::Pending => "scan-job-icon pending"@,
    }
}

/// The icon class of an index job in the list.
pub fn job_icon_class(status: IndexJobStatus) -> (r: &'static str)
    ensures
        r@ == job_icon(status),
{
    match status {
        IndexJobStatus::Completed => "scan-job-icon done",
        IndexJobStatus::Failed => "scan-job-icon failed",
        IndexJobStatus::Running => "scan-job-icon running",
        IndexJobStatus::Superseded => "scan-job-icon failed",
        IndexJobStatus::Pending => "scan-job-icon pending",
    }
}

/// The offset the job list asks for: the jobs already shown when more are appended,
/// else from the start.
pub fn job_fetch_offset(append: bool, shown: usize) -> (r: i64)
    ensures
        r == if append {
            shown as i64
        } else {
            0
        },
{
    if append {
        shown as i64
    } else {
        0
    }
}

/// The state of the administrators' list of index rules, which loads page by page as
/// the reader scrolls: the generation of the current search (raised at each new search or
/// reload), whether a page is loading, how many rules are shown, and whether more remain.
#[derive(Debug, Clone, Copy, PartialEq, Eq, Structural)]
pub struct RuleListState {
    pub generation: u32,
    pub loading: bool,
    pub item_count: usize,
    pub has_more: bool,
}

/// What happens to the list of index rules.
#[derive(Debug, Clone, Copy, PartialEq, Eq, Structural)]
pub enum RuleListEvent {
    /// The search changed, or the rules were edited: the list starts over.
    Reset,
    /// The reader scrolled near the bottom of the page.
    NearBottom,
    /// A page arrived for the search of `generation`: `count` rules, to be appended or
    /// to replace those shown, and whether more remain.
    Loaded { generation: u32, append: bool, count: usize, more: bool },
    /// A page request failed.
    Failed,
}

/// What the page does after an event.
#[derive(Debug, Clone, Copy, PartialEq, Eq, Structural)]
pub enum RuleListAction {
    Nothing,
    /// Request the page of rules starting at `offset`, for the search of `generation`.
    Fetch { offset: i64, generation: u32 },
    /// Show the arrived rules: appended to those shown, or in their place.
    Apply { append: bool },
    /// Show the request's error.
    ShowError,
}

/// Starting a page request, unless one is loading: from the rules shown when appending,
/// else from the start.
pub open spec fn rule_fetch_start(s: RuleListState, append: bool) -> (RuleListState, RuleListAction) {
    if s.loading {
        (s, RuleListAction::Nothing)
    } else {
        (
            RuleListState {
                generation: s.generation,
                loading: true,
                item_count: s.item_count,
                has_more: s.has_more,
            },
            RuleListAction::Fetch {
                offset: if append {
                    s.item_count as i64
                } else {
                    0
                },
                generation: s.generation,
            },
        )
    }
}

/// The next state of the list of index rules, and what to do.
pub open spec fn rule_list_next(s: RuleListState, e: RuleListEvent) -> (RuleListState, RuleListAction) {
    match e {
        RuleListEvent::Reset => rule_fetch_start(
            RuleListState {
                generation: (s.generation + 1) as u32,
                loading: s.loading,
                item_count: 0,
                has_more: true,
            },
            false,
        ),
        RuleListEvent::NearBottom => if !s.has_more || s.loading {
            (s, RuleListAction::Nothing)
        } else {
            rule_fetch_start(s, true)
        },
        RuleListEvent::Loaded { generation, append, count, more } => if generation
            != s.generation {
            (
                RuleListState {
                    generation: s.generation,
                    loading: false,
                    item_count: s.item_count,
                    has_more: s.has_more,
                },
                RuleListAction::Nothing,
            )
        } else {
            (
                RuleListState {
                    generation: s.generation,
                    loading: false,
                    item_count: if append {
                        (s.item_count + count) as usize
                    } else {
                        count
                    },
                    has_more: more,
                },
                RuleListAction::Apply { append },
            )
        },
        RuleListEvent::Failed => (
            RuleListState {
                generation: s.generation,
                loading: false,
                item_count: s.item_count,
                has_more: false,
            },
            RuleListAction::ShowError,
        ),
    }
}

/// One step of the list of index rules: the next state and the action for `event`.
pub fn rule_list_step(state: RuleListState, event: RuleListEvent) -> (r: (
    RuleListState,
    RuleListAction,
))
    requires
        event == RuleListEvent::Reset ==> state.generation < u32::MAX,
        event matches RuleListEvent::Loaded { append, count, .. } ==> (append ==> state.item_count
            + count <= usize::MAX),
    ensures
        r == rule_list_next(state, event),
{
    let start = |s: RuleListState, append: bool| -> (r: (RuleListState, RuleListAction))
        ensures
            r == rule_fetch_start(s, append),
        {
            if s.loading {
                (s, RuleListAction::Nothing)
            } else {
                (
                    RuleListState {
                        generation: s.generation,
                        loading: true,
                        item_count: s.item_count,
                        has_more: s.has_more,
                    },
                    RuleListAction::Fetch {
                        offset: job_fetch_offset(append, s.item_count),
                        generation: s.generation,
                    },
                )
            }
        };
    match event {
        RuleListEvent::Reset => start(
            RuleListState {
                generation: state.generation + 1,
                loading: state.loading,
                item_count: 0,
                has_more: true,
            },
            false,
        ),
        RuleListEvent::NearBottom => {
            if !state.has_more || state.loading {
                (state, RuleListAction::Nothing)
            } else {
                start(state, true)
            }
        },
        RuleListEvent::Loaded { generation, append, count, more } => {
            if generation != state.generation {
                (
                    RuleListState {
                        generation: state.generation,
                        loading: false,
                        item_count: state.item_count,
                        has_more: state.has_more,
                    },
                    RuleListAction::Nothing,
                )
            } else {
                let item_count = if append {
                    state.item_count + count
                } else {
                    count
                };
                (
                    RuleListState {
                        generation: state.generation,
                        loading: false,
                        item_count,
                        has_more: more,
                    },
                    RuleListAction::Apply { append },
                )
            }
        },
        RuleListEvent::Failed => (
            RuleListState {
                generation: state.generation,
                loading: false,
                item_count: state.item_count,
                has_more: false,
            },
            RuleListAction::ShowError,
        ),
    }
}

/// The list of index rules is fetched safely: a page that arrives for an older search is
/// dropped (nothing shown changes, and the list stops loading); no request starts while
/// one is loading; and a request always asks for the page that starts after the rules
/// shown, for the current search.
pub proof fn law_rule_list_fetch_guard(s: RuleListState, e: RuleListEvent)
    ensures
        e matches RuleListEvent::Loaded { generation, .. } ==> (generation != s.generation ==> (
        rule_list_next(s, e).1 == RuleListAction::Nothing && rule_list_next(s, e).0.item_count
            == s.item_count && rule_list_next(s, e).0.generation == s.generation
            && !rule_list_next(s, e).0.loading)),
        s.loading ==> !(rule_list_next(s, e).1 is Fetch),
        rule_list_next(s, e).1 matches RuleListAction::Fetch { offset, generation } ==> (offset
            == rule_list_next(s, e).0.item_count as i64 && generation == rule_list_next(
            s,
            e,
        ).0.generation && rule_list_next(s, e).0.loading),
{
}

/// Which fetched jobs (by position) are appended to the list shown: those whose
/// identifier is neither shown nor fetched earlier in the same page.
pub fn jobs_to_append(shown: &Vec<u128>, fetched: &Vec<u128>) -> (r: Vec<usize>)
    ensures
        r@.len() <= fetched.len(),
        forall|k: int| 0 <= k < r@.len() ==> #[trigger] r@[k] < fetched.len(),
        forall|a: int, b: int| 0 <= a < b < r@.len() ==> #[trigger] r@[a] < #[trigger] r@[b],
        forall|j: int|
            0 <= j < fetched.len() ==> (r@.contains(j as usize) <==> (!shown@.contains(
                #[trigger] fetched@[j],
            ) && !fetched@.take(j).contains(fetched@[j]))),
{
    let mut out: Vec<usize> = Vec::new();
    let mut j: usize = 0;
    while j < fetched.len()
        invariant
            j <= fetched.len(),
            out@.len() <= j,
            forall|k: int| 0 <= k < out@.len() ==> #[trigger] out@[k] < j,
            forall|a: int, b: int| 0 <= a < b < out@.len() ==> #[trigger] out@[a] < #[trigger] out@[b],
            forall|m: int|
                0 <= m < j ==> (out@.contains(m as usize) <==> (!shown@.contains(
                    #[trigger] fetched@[m],
                ) && !fetched@.take(m).contains(fetched@[m]))),
        decreases fetched.len() - j,
    {
        let id = fetched[j];
        let mut seen = false;
        let mut k: usize = 0;
        while k < shown.len()
            invariant
                k <= shown.len(),
                seen == exists|m: int| 0 <= m < k && shown@[m] == id,
            decreases shown.len() - k,
        {
            if shown[k] == id {
                seen = true;
            }
            k += 1;
        }
        let mut earlier = false;
        let mut m: usize = 0;
        while m < j
            invariant
                m <= j,
                j < fetched.len(),
                id == fetched@[j as int],
                earlier == exists|q: int| 0 <= q < m && fetched@[q] == id,
            decreases j - m,
        {
            if fetched[m] == id {
                earlier = true;
            }
            m += 1;
        }
        proof {
            if seen {
                let q = choose|q: int| 0 <= q < shown.len() && shown@[q] == id;
                assert(shown@.contains(id));
            }
            if shown@.contains(id) {
                let q = choose|q: int| 0 <= q < shown@.len() && shown@[q] == id;
            }
            if earlier {
                let q = choose|q: int| 0 <= q < j && fetched@[q] == id;
                assert(fetched@.take(j as int)[q] == id);
            }
            if fetched@.take(j as int).contains(id) {
                let q = choose|q: int| 0 <= q < j && fetched@.take(j as int)[q] == id;
                assert(fetched@[q] == id);
            }
        }
        let ghost before = out@;
        if !seen && !earlier {
            out.push(j);
        }
        proof {
            assert forall|m2: int| 0 <= m2 < j + 1 implies (out@.contains(m2 as usize) <==> (!shown@.contains(
                #[trigger] fetched@[m2],
            ) && !fetched@.take(m2).contains(fetched@[m2]))) by {
                if m2 < j {
                    if out@.contains(m2 as usize) && !before.contains(m2 as usize) {
                        let q = choose|q: int| 0 <= q < out@.len() && out@[q] == m2 as usize;
                        assert(q == before.len());
                    }
                    if before.contains(m2 as usize) {
                        let q = choose|q: int| 0 <= q < before.len() && before[q] == m2 as usize;
                        assert(out@[q] == m2 as usize);
                    }
                } else {
                    if !seen && !earlier {
                        assert(out@[before.len() as int] == j);
                    } else if out@.contains(j) {
                        let q = choose|q: int| 0 <= q < out@.len() && out@[q] == j;
                        assert(before[q] < j);
                    }
                }
            }
        }
        j += 1;
    }
    out
}

} // verus!
