//! The records the registry's server and clients exchange, and the text forms of its
//! enumerations as they are stored.
//!
//! Times are kept as the RFC 3339 text they are exchanged in.
use vstd::prelude::*;

use crate::json::str_eq;

verus! {

// ---------------------------------------------------------------------------
// Security scans
// ---------------------------------------------------------------------------

/// The security state of a skill or flock.
#[derive(Debug, Clone, Copy, PartialEq, Eq, Structural)]
pub enum SecurityStatus {
    /// Passed static scan only (AI not enabled).
    Checked,
    /// AI scan in progress (atomically claimed from `checked`).
    Scanning,
    /// Passed both static and AI scans.
    Verified,
    Suspicious,
    Malicious,
    /// Unknown or not yet scanned (default, catches unrecognized values).
    Unscanned,
}

impl Default for SecurityStatus {
    fn default() -> (r: Self)
        ensures
            r == SecurityStatus::Unscanned,
    {
        SecurityStatus::Unscanned
    }
}

/// The verdict of one scanner on a version.
#[derive(Debug, Clone, Copy, PartialEq, Eq, Structural)]
pub enum ScanVerdict {
    Pending,
    Benign,
    Suspicious,
    Malicious,
}

impl Default for ScanVerdict {
    fn default() -> (r: Self)
        ensures
            r == ScanVerdict::Pending,
    {
        ScanVerdict::Pending
    }
}

/// The label shown for a verdict.
pub open spec fn verdict_label(v: ScanVerdict) -> Seq<char> {
    match v {
        ScanVerdict::Pending => "Pending"@,
        ScanVerdict::Benign => "Benign"@,
        ScanVerdict::Suspicious => "Suspicious"@,
        ScanVerdict::Malicious => "Malicious"@,
    }
}

impl ScanVerdict {
    /// The label shown for the verdict.
    pub fn label(&self) -> (r: &'static str)
        ensures
            r@ == verdict_label(*self),
    {
        match self {
            ScanVerdict::Pending => "Pending",
            ScanVerdict::Benign => "Benign",
            ScanVerdict::Suspicious => "Suspicious",
            ScanVerdict::Malicious => "Malicious",
        }
    }
}

/// A VirusTotal result for a version.
#[derive(Debug, Clone, PartialEq)]
pub struct VtScanResult {
    pub verdict: ScanVerdict,
    pub status: String,
    pub analysis: Option<String>,
    pub report_url: Option<String>,
    pub checked_at: Option<String>,
}

/// One dimension of a language-model security review.
#[derive(Debug, Clone, PartialEq)]
pub struct LlmScanDimension {
    pub name: String,
    pub label: String,
    pub rating: String,
    pub detail: Option<String>,
}

/// A language-model security review of a version.
#[derive(Debug, Clone, PartialEq)]
pub struct LlmScanResult {
    pub verdict: ScanVerdict,
    pub status: String,
    pub confidence: Option<String>,
    pub model: Option<String>,
    pub summary: Option<String>,
    pub guidance: Option<String>,
    pub dimensions: Vec<LlmScanDimension>,
    pub checked_at: Option<String>,
}

/// One finding of the static scanner.
#[derive(Debug, Clone, PartialEq)]
pub struct StaticScanFinding {
    pub code: String,
    pub severity: String,
    pub file: Option<String>,
    pub line: Option<i32>,
    pub message: Option<String>,
}

/// The static scanner's result for a version.
#[derive(Debug, Clone, PartialEq)]
pub struct StaticScanResult {
    pub status: String,
    pub engine_version: Option<String>,
    pub summary: Option<String>,
    pub findings: Vec<StaticScanFinding>,
    pub reason_codes: Vec<String>,
    pub checked_at: Option<String>,
}

/// The scans of one version.
#[derive(Debug, Clone, PartialEq)]
pub struct VersionScanSummary {
    pub sha256: Option<String>,
    pub virustotal: Option<VtScanResult>,
    pub llm_analysis: Option<LlmScanResult>,
    pub static_scan: Option<StaticScanResult>,
}

/// The overall verdict of two scanners' verdicts (`None` where a scanner has not
/// reported): the worst wins; benign only when both said so.
pub open spec fn worst_verdict(a: Option<ScanVerdict>, b: Option<ScanVerdict>) -> ScanVerdict {
    if a == Some(ScanVerdict::Malicious) || b == Some(ScanVerdict::Malicious) {
        ScanVerdict::Malicious
    } else if a == Some(ScanVerdict::Suspicious) || b == Some(ScanVerdict::Suspicious) {
        ScanVerdict::Suspicious
    } else if a == Some(ScanVerdict::Benign) && b == Some(ScanVerdict::Benign) {
        ScanVerdict::Benign
    } else {
        ScanVerdict::Pending
    }
}

/// The verdict a VirusTotal result holds.
pub open spec fn vt_verdict(r: Option<VtScanResult>) -> Option<ScanVerdict> {
    match r {
        Some(v) => Some(v.verdict),
        None => None,
    }
}

/// The verdict a language-model review holds.
pub open spec fn llm_verdict(r: Option<LlmScanResult>) -> Option<ScanVerdict> {
    match r {
        Some(v) => Some(v.verdict),
        None => None,
    }
}

impl VersionScanSummary {
    /// Overall verdict across all scanners (worst wins).
    pub fn overall_verdict(&self) -> (r: ScanVerdict)
        ensures
            r == worst_verdict(vt_verdict(self.virustotal), llm_verdict(self.llm_analysis)),
    {
        let a = match &self.virustotal {
            Some(v) => Some(v.verdict),
            None => None,
        };
        let b = match &self.llm_analysis {
            Some(v) => Some(v.verdict),
            None => None,
        };
        if a == Some(ScanVerdict::Malicious) || b == Some(ScanVerdict::Malicious) {
            return ScanVerdict::Malicious;
        }
        if a == Some(ScanVerdict::Suspicious) || b == Some(ScanVerdict::Suspicious) {
            return ScanVerdict::Suspicious;
        }
        if a == Some(ScanVerdict::Benign) && b == Some(ScanVerdict::Benign) {
            return ScanVerdict::Benign;
        }
        ScanVerdict::Pending
    }
}

/// A verdict's severity: pending below benign below suspicious below malicious.
pub open spec fn verdict_rank(v: ScanVerdict) -> int {
    match v {
        ScanVerdict::Pending => 0,
        ScanVerdict::Benign => 1,
        ScanVerdict::Suspicious => 2,
        ScanVerdict::Malicious => 3,
    }
}

/// The overall verdict is never milder than a scanner's suspicious or malicious verdict,
/// and it is benign only when every scanner said benign.
pub proof fn law_worst_verdict_wins(a: Option<ScanVerdict>, b: Option<ScanVerdict>)
    ensures
        a matches Some(v) ==> (verdict_rank(v) >= 2 ==> verdict_rank(worst_verdict(a, b))
            >= verdict_rank(v)),
        b matches Some(v) ==> (verdict_rank(v) >= 2 ==> verdict_rank(worst_verdict(a, b))
            >= verdict_rank(v)),
        worst_verdict(a, b) == ScanVerdict::Benign <==> (a == Some(ScanVerdict::Benign) && b
            == Some(ScanVerdict::Benign)),
        worst_verdict(a, b) == worst_verdict(b, a),
{
}

// ---------------------------------------------------------------------------
// Enumerations and their stored text
// ---------------------------------------------------------------------------

/// The state of an index job.
#[derive(Debug, Clone, Copy, PartialEq, Eq, Structural)]
pub enum IndexJobStatus {
    Pending,
    Running,
    Completed,
    Failed,
    Superseded,
}

/// The kind of a catalog resource.
#[derive(Debug, Clone, Copy, PartialEq, Eq, Structural)]
pub enum ResourceKind {
    Skill,
}

/// A user's role.
#[derive(Debug, Clone, Copy, PartialEq, Eq, Structural)]
pub enum UserRole {
    Admin,
    Moderator,
    User,
}

/// Whether a skill is shown.
#[derive(Debug, Clone, Copy, PartialEq, Eq, Structural)]
pub enum ModerationStatus {
    Active,
    Hidden,
    Removed,
}

/// Why something was reported.
#[derive(Debug, Clone, Copy, PartialEq, Eq, Structural)]
pub enum ReportReason {
    Spam,
    Abuse,
    Inappropriate,
    Copyright,
    Other,
}

/// Where a report stands.
#[derive(Debug, Clone, Copy, PartialEq, Eq, Structural)]
pub enum ReportStatus {
    Pending,
    Reviewed,
    Resolved,
    Dismissed,
}

/// What a report is about.
#[derive(Debug, Clone, Copy, PartialEq, Eq, Structural)]
pub enum ReportTargetType {
    Skill,
    Flock,
    Comment,
    User,
}

/// Who can see a catalog entry.
#[derive(Debug, Clone, Copy, PartialEq, Eq, Structural)]
pub enum RegistryVisibility {
    Public,
    Unlisted,
    Private,
}

/// The life-cycle state of a catalog entry.
#[derive(Debug, Clone, Copy, PartialEq, Eq, Structural)]
pub enum RegistryStatus {
    Draft,
    Active,
    Experimental,
    Deprecated,
    Archived,
}

/// The stored text of an index job's state.
pub open spec fn index_job_status_text(s: IndexJobStatus) -> Seq<char> {
    match s {
        IndexJobStatus::Pending => "pending"@,
        IndexJobStatus::Running => "running"@,
        IndexJobStatus::Completed => "completed"@,
        IndexJobStatus::Failed => "failed"@,
        IndexJobStatus::Superseded => "superseded"@,
    }
}

/// The index job state stored text names; anything unknown is pending.
pub open spec fn index_job_status_of(value: Seq<char>) -> IndexJobStatus {
    if value == "running"@ {
        IndexJobStatus::Running
    } else if value == "completed"@ {
        IndexJobStatus::Completed
    } else if value == "failed"@ {
        IndexJobStatus::Failed
    } else if value == "superseded"@ {
        IndexJobStatus::Superseded
    } else {
        IndexJobStatus::Pending
    }
}

/// The state of an index job from its stored text; unknown text reads as pending.
pub fn parse_index_job_status(value: &str) -> (r: IndexJobStatus)
    ensures
        r == index_job_status_of(value@),
{
    if str_eq(value, "running") {
        IndexJobStatus::Running
    } else if str_eq(value, "completed") {
        IndexJobStatus::Completed
    } else if str_eq(value, "failed") {
        IndexJobStatus::Failed
    } else if str_eq(value, "superseded") {
        IndexJobStatus::Superseded
    } else {
        IndexJobStatus::Pending
    }
}

/// The stored text of a moderation state.
pub open spec fn moderation_status_text(s: ModerationStatus) -> Seq<char> {
    match s {
        ModerationStatus::Active => "active"@,
        ModerationStatus::Hidden => "hidden"@,
        ModerationStatus::Removed => "removed"@,
    }
}

/// The moderation state stored text names; anything unknown is active.
pub open spec fn moderation_status_of(value: Seq<char>) -> ModerationStatus {
    if value == "hidden"@ {
        ModerationStatus::Hidden
    } else if value == "removed"@ {
        ModerationStatus::Removed
    } else {
        ModerationStatus::Active
    }
}

/// The stored text of a moderation state.
pub fn moderation_status_to_str(status: ModerationStatus) -> (r: &'static str)
    ensures
        r@ == moderation_status_text(status),
{
    match status {
        ModerationStatus::Active => "active",
        ModerationStatus::Hidden => "hidden",
        ModerationStatus::Removed => "removed",
    }
}

/// The moderation state from its stored text; unknown text reads as active.
pub fn parse_moderation_status(value: &str) -> (r: ModerationStatus)
    ensures
        r == moderation_status_of(value@),
{
    if str_eq(value, "hidden") {
        ModerationStatus::Hidden
    } else if str_eq(value, "removed") {
        ModerationStatus::Removed
    } else {
        ModerationStatus::Active
    }
}

/// The stored text of a role.
pub open spec fn user_role_text(r: UserRole) -> Seq<char> {
    match r {
        UserRole::Admin => "admin"@,
        UserRole::Moderator => "moderator"@,
        UserRole::User => "user"@,
    }
}

/// The stored text of a role.
pub fn user_role_to_str(role: UserRole) -> (r: &'static str)
    ensures
        r@ == user_role_text(role),
{
    match role {
        UserRole::Admin => "admin",
        UserRole::Moderator => "moderator",
        UserRole::User => "user",
    }
}

/// The stored text of a report's target type.
pub open spec fn target_type_text(t: ReportTargetType) -> Seq<char> {
    match t {
        ReportTargetType::Skill => "skill"@,
        ReportTargetType::Flock => "flock"@,
        ReportTargetType::Comment => "comment"@,
        ReportTargetType::User => "user"@,
    }
}

/// The target type stored text names; anything unknown is a skill.
pub open spec fn target_type_of(value: Seq<char>) -> ReportTargetType {
    if value == "flock"@ {
        ReportTargetType::Flock
    } else if value == "comment"@ {
        ReportTargetType::Comment
    } else if value == "user"@ {
        ReportTargetType::User
    } else {
        ReportTargetType::Skill
    }
}

/// The stored text of a report's target type.
pub fn target_type_to_str(value: ReportTargetType) -> (r: &'static str)
    ensures
        r@ == target_type_text(value),
{
    match value {
        ReportTargetType::Skill => "skill",
        ReportTargetType::Flock => "flock",
        ReportTargetType::Comment => "comment",
        ReportTargetType::User => "user",
    }
}

/// A report's target type from its stored text; unknown text reads as a skill.
pub fn parse_target_type(value: &str) -> (r: ReportTargetType)
    ensures
        r == target_type_of(value@),
{
    if str_eq(value, "flock") {
        ReportTargetType::Flock
    } else if str_eq(value, "comment") {
        ReportTargetType::Comment
    } else if str_eq(value, "user") {
        ReportTargetType::User
    } else {
        ReportTargetType::Skill
    }
}

/// The stored text of a report reason.
pub open spec fn reason_text(r: ReportReason) -> Seq<char> {
    match r {
        ReportReason::Spam => "spam"@,
        ReportReason::Abuse => "abuse"@,
        ReportReason::Inappropriate => "inappropriate"@,
        ReportReason::Copyright => "copyright"@,
        ReportReason::Other => "other"@,
    }
}

/// The report reason stored text names; anything unknown is "other".
pub open spec fn reason_of(value: Seq<char>) -> ReportReason {
    if value == "spam"@ {
        ReportReason::Spam
    } else if value == "abuse"@ {
        ReportReason::Abuse
    } else if value == "inappropriate"@ {
        ReportReason::Inappropriate
    } else if value == "copyright"@ {
        ReportReason::Copyright
    } else {
        ReportReason::Other
    }
}

/// The stored text of a report reason.
pub fn reason_to_str(value: ReportReason) -> (r: &'static str)
    ensures
        r@ == reason_text(value),
{
    match value {
        ReportReason::Spam => "spam",
        ReportReason::Abuse => "abuse",
        ReportReason::Inappropriate => "inappropriate",
        ReportReason::Copyright => "copyright",
        ReportReason::Other => "other",
    }
}

/// A report reason from its stored text; unknown text reads as "other".
pub fn parse_reason(value: &str) -> (r: ReportReason)
    ensures
        r == reason_of(value@),
{
    if str_eq(value, "spam") {
        ReportReason::Spam
    } else if str_eq(value, "abuse") {
        ReportReason::Abuse
    } else if str_eq(value, "inappropriate") {
        ReportReason::Inappropriate
    } else if str_eq(value, "copyright") {
        ReportReason::Copyright
    } else {
        ReportReason::Other
    }
}

/// The stored text of a report's state.
pub open spec fn report_status_text(s: ReportStatus) -> Seq<char> {
    match s {
        ReportStatus::Pending => "pending"@,
        ReportStatus::Reviewed => "reviewed"@,
        ReportStatus::Resolved => "resolved"@,
        ReportStatus::Dismissed => "dismissed"@,
    }
}

/// The report state stored text names; anything unknown is pending.
pub open spec fn report_status_of(value: Seq<char>) -> ReportStatus {
    if value == "reviewed"@ {
        ReportStatus::Reviewed
    } else if value == "resolved"@ {
        ReportStatus::Resolved
    } else if value == "dismissed"@ {
        ReportStatus::Dismissed
    } else {
        ReportStatus::Pending
    }
}

/// The stored text of a report's state.
pub fn report_status_to_str(value: ReportStatus) -> (r: &'static str)
    ensures
        r@ == report_status_text(value),
{
    match value {
        ReportStatus::Pending => "pending",
        ReportStatus::Reviewed => "reviewed",
        ReportStatus::Resolved => "resolved",
        ReportStatus::Dismissed => "dismissed",
    }
}

/// A report's state from its stored text; unknown text reads as pending.
pub fn parse_report_status(value: &str) -> (r: ReportStatus)
    ensures
        r == report_status_of(value@),
{
    if str_eq(value, "reviewed") {
        ReportStatus::Reviewed
    } else if str_eq(value, "resolved") {
        ReportStatus::Resolved
    } else if str_eq(value, "dismissed") {
        ReportStatus::Dismissed
    } else {
        ReportStatus::Pending
    }
}

/// The stored text of a visibility.
pub open spec fn visibility_text(v: RegistryVisibility) -> Seq<char> {
    match v {
        RegistryVisibility::Public => "public"@,
        RegistryVisibility::Unlisted => "unlisted"@,
        RegistryVisibility::Private => "private"@,
    }
}

/// The visibility stored text names; anything unknown is public.
pub open spec fn visibility_of(value: Seq<char>) -> RegistryVisibility {
    if value == "unlisted"@ {
        RegistryVisibility::Unlisted
    } else if value == "private"@ {
        RegistryVisibility::Private
    } else {
        RegistryVisibility::Public
    }
}

/// The stored text of a visibility.
pub fn visibility_to_str(visibility: RegistryVisibility) -> (r: &'static str)
    ensures
        r@ == visibility_text(visibility),
{
    match visibility {
        RegistryVisibility::Public => "public",
        RegistryVisibility::Unlisted => "unlisted",
        RegistryVisibility::Private => "private",
    }
}

/// A visibility from its stored text; unknown text reads as public.
pub fn parse_visibility(value: &str) -> (r: RegistryVisibility)
    ensures
        r == visibility_of(value@),
{
    if str_eq(value, "unlisted") {
        RegistryVisibility::Unlisted
    } else if str_eq(value, "private") {
        RegistryVisibility::Private
    } else {
        RegistryVisibility::Public
    }
}

/// The stored text of a life-cycle state.
pub open spec fn registry_status_text(s: RegistryStatus) -> Seq<char> {
    match s {
        RegistryStatus::Draft => "draft"@,
        RegistryStatus::Active => "active"@,
        RegistryStatus::Experimental => "experimental"@,
        RegistryStatus::Deprecated => "deprecated"@,
        RegistryStatus::Archived => "archived"@,
    }
}

/// The life-cycle state stored text names; anything unknown is active.
pub open spec fn registry_status_of(value: Seq<char>) -> RegistryStatus {
    if value == "draft"@ {
        RegistryStatus::Draft
    } else if value == "experimental"@ {
        RegistryStatus::Experimental
    } else if value == "deprecated"@ {
        RegistryStatus::Deprecated
    } else if value == "archived"@ {
        RegistryStatus::Archived
    } else {
        RegistryStatus::Active
    }
}

/// The stored text of a life-cycle state.
pub fn status_to_str(status: RegistryStatus) -> (r: &'static str)
    ensures
        r@ == registry_status_text(status),
{
    match status {
        RegistryStatus::Draft => "draft",
        RegistryStatus::Active => "active",
        RegistryStatus::Experimental => "experimental",
        RegistryStatus::Deprecated => "deprecated",
        RegistryStatus::Archived => "archived",
    }
}

/// A life-cycle state from its stored text; unknown text reads as active.
pub fn parse_status(value: &str) -> (r: RegistryStatus)
    ensures
        r == registry_status_of(value@),
{
    if str_eq(value, "draft") {
        RegistryStatus::Draft
    } else if str_eq(value, "experimental") {
        RegistryStatus::Experimental
    } else if str_eq(value, "deprecated") {
        RegistryStatus::Deprecated
    } else if str_eq(value, "archived") {
        RegistryStatus::Archived
    } else {
        RegistryStatus::Active
    }
}

/// Reading back the stored text of an index job state gives the state again.
pub proof fn law_index_job_status_round_trip(j: IndexJobStatus)
    ensures
        index_job_status_of(index_job_status_text(j)) == j,
{
    reveal_strlit("pending");
    reveal_strlit("running");
    reveal_strlit("completed");
    reveal_strlit("failed");
    reveal_strlit("superseded");
    match j {
        IndexJobStatus::Pending => {
            assert("pending"@[0] != "running"@[0]);
            assert("pending"@.len() != "completed"@.len());
            assert("pending"@[0] != "failed"@[0]);
            assert("pending"@.len() != "superseded"@.len());
        },
        IndexJobStatus::Running => {},
        IndexJobStatus::Completed => {
            assert("completed"@.len() != "running"@.len());
        },
        IndexJobStatus::Failed => {
            assert("failed"@[0] != "running"@[0]);
            assert("failed"@.len() != "completed"@.len());
        },
        IndexJobStatus::Superseded => {
            assert("superseded"@.len() != "running"@.len());
            assert("superseded"@.len() != "completed"@.len());
            assert("superseded"@.len() != "failed"@.len());
        },
    }
}

/// Reading back the stored text of a moderation state gives it again.
pub proof fn law_moderation_status_round_trip(m: ModerationStatus)
    ensures
        moderation_status_of(moderation_status_text(m)) == m,
{
    reveal_strlit("active");
    reveal_strlit("hidden");
    reveal_strlit("removed");
    match m {
        ModerationStatus::Active => {
            assert("active"@[0] != "hidden"@[0]);
            assert("active"@.len() != "removed"@.len());
        },
        ModerationStatus::Hidden => {
            assert("hidden"@[0] != "active"@[0]);
            assert("hidden"@.len() != "removed"@.len());
        },
        ModerationStatus::Removed => {
            assert("removed"@.len() != "active"@.len());
            assert("removed"@.len() != "hidden"@.len());
        },
    }
}

/// Reading back the stored text of a report target type gives it again.
pub proof fn law_target_type_round_trip(t: ReportTargetType)
    ensures
        target_type_of(target_type_text(t)) == t,
{
    reveal_strlit("skill");
    reveal_strlit("flock");
    reveal_strlit("comment");
    reveal_strlit("user");
    match t {
        ReportTargetType::Skill => {
            assert("skill"@[0] != "flock"@[0]);
            assert("skill"@.len() != "comment"@.len());
            assert("skill"@.len() != "user"@.len());
        },
        ReportTargetType::Flock => {
            assert("flock"@[0] != "skill"@[0]);
            assert("flock"@.len() != "comment"@.len());
            assert("flock"@.len() != "user"@.len());
        },
        ReportTargetType::Comment => {
            assert("comment"@.len() != "skill"@.len());
            assert("comment"@.len() != "flock"@.len());
            assert("comment"@.len() != "user"@.len());
        },
        ReportTargetType::User => {
            assert("user"@.len() != "skill"@.len());
            assert("user"@.len() != "flock"@.len());
            assert("user"@.len() != "comment"@.len());
        },
    }
}

/// Reading back the stored text of a report reason gives it again.
pub proof fn law_reason_round_trip(r: ReportReason)
    ensures
        reason_of(reason_text(r)) == r,
{
    reveal_strlit("spam");
    reveal_strlit("abuse");
    reveal_strlit("inappropriate");
    reveal_strlit("copyright");
    reveal_strlit("other");
    match r {
        ReportReason::Spam => {
            assert("spam"@.len() != "abuse"@.len());
            assert("spam"@.len() != "inappropriate"@.len());
            assert("spam"@.len() != "copyright"@.len());
            assert("spam"@.len() != "other"@.len());
        },
        ReportReason::Abuse => {
            assert("abuse"@.len() != "spam"@.len());
            assert("abuse"@.len() != "inappropriate"@.len());
            assert("abuse"@.len() != "copyright"@.len());
            assert("abuse"@[0] != "other"@[0]);
        },
        ReportReason::Inappropriate => {
            assert("inappropriate"@.len() != "spam"@.len());
            assert("inappropriate"@.len() != "abuse"@.len());
            assert("inappropriate"@.len() != "copyright"@.len());
            assert("inappropriate"@.len() != "other"@.len());
        },
        ReportReason::Copyright => {
            assert("copyright"@.len() != "spam"@.len());
            assert("copyright"@.len() != "abuse"@.len());
            assert("copyright"@.len() != "inappropriate"@.len());
            assert("copyright"@.len() != "other"@.len());
        },
        ReportReason::Other => {
            assert("other"@.len() != "spam"@.len());
            assert("other"@[0] != "abuse"@[0]);
            assert("other"@.len() != "inappropriate"@.len());
            assert("other"@.len() != "copyright"@.len());
        },
    }
}

/// Reading back the stored text of a report state gives it again.
pub proof fn law_report_status_round_trip(s: ReportStatus)
    ensures
        report_status_of(report_status_text(s)) == s,
{
    reveal_strlit("pending");
    reveal_strlit("reviewed");
    reveal_strlit("resolved");
    reveal_strlit("dismissed");
    match s {
        ReportStatus::Pending => {
            assert("pending"@.len() != "reviewed"@.len());
            assert("pending"@.len() != "resolved"@.len());
            assert("pending"@.len() != "dismissed"@.len());
        },
        ReportStatus::Reviewed => {
            assert("reviewed"@.len() != "pending"@.len());
            assert("reviewed"@[2] != "resolved"@[2]);
            assert("reviewed"@.len() != "dismissed"@.len());
        },
        ReportStatus::Resolved => {
            assert("resolved"@.len() != "pending"@.len());
            assert("resolved"@[2] != "reviewed"@[2]);
            assert("resolved"@.len() != "dismissed"@.len());
        },
        ReportStatus::Dismissed => {
            assert("dismissed"@.len() != "pending"@.len());
            assert("dismissed"@.len() != "reviewed"@.len());
            assert("dismissed"@.len() != "resolved"@.len());
        },
    }
}

/// Reading back the stored text of a visibility gives it again.
pub proof fn law_visibility_round_trip(v: RegistryVisibility)
    ensures
        visibility_of(visibility_text(v)) == v,
{
    reveal_strlit("public");
    reveal_strlit("unlisted");
    reveal_strlit("private");
    match v {
        RegistryVisibility::Public => {
            assert("public"@.len() != "unlisted"@.len());
            assert("public"@.len() != "private"@.len());
        },
        RegistryVisibility::Unlisted => {
            assert("unlisted"@.len() != "public"@.len());
            assert("unlisted"@.len() != "private"@.len());
        },
        RegistryVisibility::Private => {
            assert("private"@.len() != "public"@.len());
            assert("private"@.len() != "unlisted"@.len());
        },
    }
}

/// Reading back the stored text of a life-cycle state gives it again.
pub proof fn law_registry_status_round_trip(g: RegistryStatus)
    ensures
        registry_status_of(registry_status_text(g)) == g,
{
    reveal_strlit("draft");
    reveal_strlit("active");
    reveal_strlit("experimental");
    reveal_strlit("deprecated");
    reveal_strlit("archived");
    match g {
        RegistryStatus::Draft => {
            assert("draft"@.len() != "active"@.len());
            assert("draft"@.len() != "experimental"@.len());
            assert("draft"@.len() != "deprecated"@.len());
            assert("draft"@.len() != "archived"@.len());
        },
        RegistryStatus::Active => {
            assert("active"@.len() != "draft"@.len());
            assert("active"@.len() != "experimental"@.len());
            assert("active"@.len() != "deprecated"@.len());
            assert("active"@.len() != "archived"@.len());
        },
        RegistryStatus::Experimental => {
            assert("experimental"@.len() != "draft"@.len());
            assert("experimental"@.len() != "active"@.len());
            assert("experimental"@.len() != "deprecated"@.len());
            assert("experimental"@.len() != "archived"@.len());
        },
        RegistryStatus::Deprecated => {
            assert("deprecated"@.len() != "draft"@.len());
            assert("deprecated"@.len() != "active"@.len());
            assert("deprecated"@.len() != "experimental"@.len());
            assert("deprecated"@.len() != "archived"@.len());
        },
        RegistryStatus::Archived => {
            assert("archived"@.len() != "draft"@.len());
            assert("archived"@.len() != "active"@.len());
            assert("archived"@.len() != "experimental"@.len());
            assert("archived"@.len() != "deprecated"@.len());
        },
    }
}

// ---------------------------------------------------------------------------
// Requests and responses
// ---------------------------------------------------------------------------

/// A request to index a repository.
#[derive(Debug, Clone, PartialEq)]
pub struct SubmitIndexRequest {
    pub git_url: String,
    pub git_ref: String,
    pub git_subdir: String,
    pub repo_slug: Option<String>,
    pub force: bool,
}

/// The ref indexed when a request names none.
pub fn default_git_ref() -> (r: String)
    ensures
        r@ == "main"@,
{
    "main".to_string()
}

/// The subdirectory indexed when a request names none: the repository root.
pub fn default_git_subdir() -> (r: String)
    ensures
        r@ == "."@,
{
    ".".to_string()
}

/// A request to record an install.
#[derive(Debug, Clone)]
pub struct RecordInstallRequest {
    pub client_type: String,
}

/// A request to set a security state by hand.
#[derive(Debug, Clone, PartialEq)]
pub struct UpdateSecurityStatusRequest {
    pub security_status: SecurityStatus,
    pub notes: Option<String>,
}

/// A request to make a user a site admin.
#[derive(Debug, Clone, PartialEq)]
pub struct AddSiteAdminRequest {
    pub user_handle: String,
}

/// The answer to an admin action.
#[derive(Debug, Clone, PartialEq)]
pub struct AdminActionResponse {
    pub ok: bool,
    pub message: String,
}

/// A request to create an index rule.
#[derive(Debug, Clone, PartialEq)]
pub struct CreateIndexRuleRequest {
    pub repo_url: String,
    pub path_regex: String,
    pub strategy: String,
    pub description: String,
}

/// A request to change an index rule; absent fields stay.
#[derive(Debug, Clone, PartialEq)]
pub struct UpdateIndexRuleRequest {
    pub repo_url: Option<String>,
    pub path_regex: Option<String>,
    pub strategy: Option<String>,
    pub description: Option<String>,
}

/// A documentation page.
#[derive(Debug, Clone, PartialEq)]
pub struct DocPageResponse {
    pub title: String,
    pub description: String,
    pub content_html: String,
    pub toc: Vec<DocTocItem>,
    pub sidebar: Vec<DocSidebarGroup>,
}

/// An entry of a page's table of contents.
#[derive(Debug, Clone, PartialEq)]
pub struct DocTocItem {
    pub id: String,
    pub text: String,
    pub depth: u32,
}

/// A group of links in the documentation sidebar.
#[derive(Debug, Clone, PartialEq)]
pub struct DocSidebarGroup {
    pub title: String,
    pub items: Vec<DocSidebarLink>,
}

/// A link in the documentation sidebar.
#[derive(Debug, Clone, PartialEq)]
pub struct DocSidebarLink {
    pub text: String,
    pub link: String,
}

/// The counters of a catalog entry.
#[derive(Debug, Clone, PartialEq)]
pub struct CatalogStats {
    pub downloads: i64,
    pub stars: i64,
    pub versions: i64,
    pub comments: i64,
    pub installs: i64,
    pub unique_users: i64,
}

/// The badges of a skill.
#[derive(Debug, Clone, PartialEq)]
pub struct SkillBadges {
    pub highlighted: bool,
    pub official: bool,
    pub deprecated: bool,
    pub suspicious: bool,
}

/// A file of a version, without its content.
#[derive(Debug, Clone, PartialEq)]
pub struct ResourceFileSummary {
    pub path: String,
    pub size: i32,
    pub sha256: String,
}

/// A file of a version.
#[derive(Debug, Clone, PartialEq)]
pub struct ResourceFile {
    pub path: String,
    pub content: String,
    pub size: i32,
    pub sha256: String,
}

/// A page of items, with the cursor of the next page.
#[derive(Debug, Clone, PartialEq)]
pub struct PagedResponse<T> {
    pub items: Vec<T>,
    pub next_cursor: Option<String>,
}

/// A file of a published bundle.
#[derive(Debug, Clone, PartialEq)]
pub struct PublishBundleFile {
    pub path: String,
    pub content: String,
}

/// A request to publish a version.
#[derive(Debug, Clone, PartialEq)]
pub struct IndexRequest {
    pub slug: String,
    pub display_name: String,
    pub version: String,
    pub changelog: String,
    pub tags: Vec<String>,
    pub files: Vec<PublishBundleFile>,
    pub summary: Option<String>,
}

/// A request to comment.
#[derive(Debug, Clone, PartialEq)]
pub struct CreateCommentRequest {
    pub body: String,
}

/// The answer to starring or unstarring.
#[derive(Debug, Clone, PartialEq)]
pub struct ToggleStarResponse {
    pub ok: bool,
    pub stars: i64,
    pub starred: bool,
}

/// The answer to a deletion.
#[derive(Debug, Clone, PartialEq)]
pub struct DeleteResponse {
    pub ok: bool,
}

/// The counters of a user's profile.
#[derive(Debug, Clone, PartialEq)]
pub struct UserProfileStats {
    pub published_skills: i64,
    pub starred_skills: i64,
    pub starred_flocks: i64,
    pub history: i64,
}

/// A request to moderate a skill; absent badges stay.
#[derive(Debug, Clone, PartialEq)]
pub struct ModerationUpdateRequest {
    pub status: ModerationStatus,
    pub highlighted: Option<bool>,
    pub official: Option<bool>,
    pub deprecated: Option<bool>,
    pub suspicious: Option<bool>,
    pub notes: Option<String>,
}

/// The content of one file of a version.
#[derive(Debug, Clone, PartialEq)]
pub struct FileContentResponse {
    pub path: String,
    pub content: String,
    pub version: String,
}

/// A version a query resolved to.
#[derive(Debug, Clone, PartialEq)]
pub struct ResolvedVersion {
    pub version: String,
}

/// The versions a query for a skill resolved to.
#[derive(Debug, Clone, PartialEq)]
pub struct ResolveResponse {
    pub slug: String,
    pub matched: Option<ResolvedVersion>,
    pub latest_version: Option<ResolvedVersion>,
}

/// How many of each thing the catalog holds.
#[derive(Debug, Clone, PartialEq)]
pub struct CatalogCounts {
    pub users: i64,
    pub repos: i64,
    pub flocks: i64,
    pub skills: i64,
    pub versions: i64,
    pub comments: i64,
    pub reports: i64,
}

/// The language-model use of one task and model.
#[derive(Debug, Clone, PartialEq)]
pub struct AiUsageSummaryItem {
    pub task_type: String,
    pub model: String,
    pub call_count: i64,
    pub total_prompt_tokens: i64,
    pub total_completion_tokens: i64,
    pub total_tokens: i64,
}

/// A request to change a user's role.
#[derive(Debug, Clone, PartialEq)]
pub struct SetUserRoleRequest {
    pub role: UserRole,
}

/// A request to ban a user.
#[derive(Debug, Clone, PartialEq)]
pub struct BanUserRequest {
    pub reason: Option<String>,
}

/// A request to settle a report.
#[derive(Debug, Clone, PartialEq)]
pub struct ReviewReportRequest {
    pub status: ReportStatus,
    pub notes: Option<String>,
}

/// A request to rate a flock.
#[derive(Debug, Clone, PartialEq)]
pub struct RateFlockRequest {
    pub score: i16,
}

/// A user as lists and pages show them; `id` is the 128-bit value of the user's UUID.
#[derive(Debug, Clone, PartialEq)]
pub struct UserSummary {
    pub id: u128,
    pub handle: String,
    pub display_name: Option<String>,
    pub avatar_url: Option<String>,
    pub role: UserRole,
}

/// A flock's name, description and keywords as a language model proposed them.
#[derive(Debug, Clone)]
pub struct GeneratedFlockMeta {
    pub name: String,
    pub description: String,
    pub keywords: Vec<String>,
}

/// A repository's name, description and keywords as a language model proposed them.
#[derive(Debug, Clone)]
pub struct GeneratedRepoMeta {
    pub name: String,
    pub description: String,
    pub keywords: Vec<String>,
}


/// Which stored version of a skill is its latest: the one the skill names when it is
/// among `version_ids`, else the first of them.
pub fn resolve_latest_skill_version(latest_version_id: Option<u128>, version_ids: &Vec<u128>) -> (r: Option<
    usize,
>)
    ensures
        match r {
            Some(i) => i < version_ids.len() && match latest_version_id {
                Some(id) => if version_ids@.contains(id) {
                    version_ids@[i as int] == id && forall|k: int|
                        0 <= k < i ==> version_ids@[k] != id
                } else {
                    i == 0
                },
                None => i == 0,
            },
            None => version_ids.len() == 0,
        },
{
    match latest_version_id {
        Some(id) => {
            let mut i: usize = 0;
            while i < version_ids.len()
                invariant
                    i <= version_ids.len(),
                    latest_version_id == Some(id),
                    forall|k: int| 0 <= k < i ==> version_ids@[k] != id,
                decreases version_ids.len() - i,
            {
                if version_ids[i] == id {
                    assert(version_ids@.contains(id)) by {
                        assert(version_ids@[i as int] == id);
                    }
                    return Some(i);
                }
                i += 1;
            }
        },
        None => {},
    }
    if version_ids.len() > 0 {
        Some(0)
    } else {
        None
    }
}

} // verus!
