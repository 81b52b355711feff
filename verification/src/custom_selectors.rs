//! Dry-run validation of a user's custom selector definitions.
use vstd::prelude::*;
use vstd::string::StringExecFns;

use crate::error::AppError;
use crate::json::{as_array, as_str, get, get_str, obj_get, str_eq, Json};
use crate::text::{chars_of, decimal, trim, trim_vec, usize_to_decimal};

verus! {

broadcast use vstd::string::group_string_axioms;

/// Maximum number of custom selector entries a single user may store.
pub const MAX_CUSTOM_SELECTORS_PER_USER: usize = 200;

/// A user's custom selectors as submitted.
#[derive(Debug)]
pub struct SaveCustomSelectorsRequest {
    pub selectors: Vec<Json>,
    pub version: u8,
}

/// One problem found with a submitted selector.
#[derive(Debug, Clone, PartialEq)]
pub struct SelectorValidationIssue {
    /// Index in the submitted `selectors` array.
    pub index: usize,
    /// Field that failed (e.g. "name", "kind", "pattern") — empty if the
    /// whole entry is invalid.
    pub field: String,
    /// Human-readable error message.
    pub message: String,
}

/// The outcome of validating custom selectors.
#[derive(Debug, Clone, PartialEq)]
pub struct ValidateCustomSelectorsResponse {
    /// `true` when `issues` is empty.
    pub ok: bool,
    pub issues: Vec<SelectorValidationIssue>,
}

/// An issue as plain values: `(index, field, message)`.
pub type IssueView = (nat, Seq<char>, Seq<char>);

/// The issues of a response, as plain values.
pub open spec fn issue_views(s: Seq<SelectorValidationIssue>) -> Seq<IssueView> {
    Seq::new(s.len(), |i: int| (s[i].index as nat, s[i].field@, s[i].message@))
}

/// Whether `k` is one of the selector kinds the indexer knows.
pub open spec fn is_known_kind(k: Seq<char>) -> bool {
    k == "file_glob"@ || k == "dependency"@ || k == "regex"@ || k == "composite"@
}

/// The issue with the `name` of an object entry, if any.
pub open spec fn name_issues(i: nat, o: Seq<(String, Json)>) -> Seq<IssueView> {
    match as_str(obj_get(o, "name"@)) {
        Some(s) if trim(s).len() > 0 => Seq::empty(),
        _ => seq![(i, "name"@, "name is required and must be a non-empty string"@)],
    }
}

/// The issue with the `kind` of an object entry, if any.
pub open spec fn kind_issues(i: nat, o: Seq<(String, Json)>) -> Seq<IssueView> {
    match as_str(obj_get(o, "kind"@)) {
        Some(k) => if is_known_kind(k) {
            Seq::empty()
        } else {
            seq![
                (i, "kind"@, "kind '"@ + k
                    + "' is not one of file_glob, dependency, regex, composite"@),
            ]
        },
        None => seq![(i, "kind"@, "kind is required (one of file_glob, dependency, regex, composite)"@)],
    }
}

/// The issue with the patterns of an object entry, if any: a composite needs a non-empty
/// `selectors` array, anything else a non-blank `pattern` or a non-empty `patterns` array.
pub open spec fn pattern_issues(i: nat, o: Seq<(String, Json)>) -> Seq<IssueView> {
    if as_str(obj_get(o, "kind"@)) == Some("composite"@) {
        match as_array(obj_get(o, "selectors"@)) {
            Some(a) if a.len() > 0 => Seq::empty(),
            _ => seq![
                (i, "selectors"@, "composite selector requires a non-empty `selectors` array"@),
            ],
        }
    } else {
        let has_single = match as_str(obj_get(o, "pattern"@)) {
            Some(p) => trim(p).len() > 0,
            None => false,
        };
        let has_many = match as_array(obj_get(o, "patterns"@)) {
            Some(a) => a.len() > 0,
            None => false,
        };
        if !has_single && !has_many {
            seq![(i, "pattern"@, "pattern (string) or patterns (array) is required"@)]
        } else {
            Seq::empty()
        }
    }
}

/// The issues of the entry at index `i`.
pub open spec fn entry_issues(i: nat, entry: Json) -> Seq<IssueView> {
    match entry {
        Json::Object(o) => name_issues(i, o@) + kind_issues(i, o@) + pattern_issues(i, o@),
        _ => seq![(i, ""@, "selector entry must be a JSON object"@)],
    }
}

/// The issues of all entries, in order.
pub open spec fn all_issues(entries: Seq<Json>) -> Seq<IssueView>
    decreases entries.len(),
{
    if entries.len() == 0 {
        Seq::empty()
    } else {
        all_issues(entries.drop_last()) + entry_issues((entries.len() - 1) as nat, entries.last())
    }
}

fn issue(index: usize, field: &str, message: String) -> (r: SelectorValidationIssue)
    ensures
        r.index == index,
        r.field@ == field@,
        r.message@ == message@,
{
    SelectorValidationIssue { index, field: field.to_string(), message }
}

/// Whether the string under `key` is present and not blank.
fn has_nonblank(o: &Vec<(String, Json)>, key: &str) -> (r: bool)
    ensures
        r == match as_str(obj_get(o@, key@)) {
            Some(s) => trim(s).len() > 0,
            None => false,
        },
{
    match get_str(o, key) {
        Some(s) => trim_vec(&chars_of(s.as_str())).len() > 0,
        None => false,
    }
}

/// Whether the array under `key` is present and not empty.
fn has_nonempty_array(o: &Vec<(String, Json)>, key: &str) -> (r: bool)
    ensures
        r == match as_array(obj_get(o@, key@)) {
            Some(a) => a.len() > 0,
            None => false,
        },
{
    match get(o, key) {
        Some(Json::Array(a)) => a.len() > 0,
        _ => false,
    }
}

/// Append the issues of the entry at `index` to `out`.
fn check_entry(index: usize, entry: &Json, out: &mut Vec<SelectorValidationIssue>)
    ensures
        issue_views(final(out)@) == issue_views(old(out)@) + entry_issues(index as nat, *entry),
{
    let ghost start = issue_views(out@);
    let o = match entry {
        Json::Object(o) => o,
        _ => {
            out.push(issue(index, "", "selector entry must be a JSON object".to_string()));
            assert(issue_views(out@) =~= start + entry_issues(index as nat, *entry));
            return;
        },
    };
    if !has_nonblank(o, "name") {
        out.push(issue(index, "name", "name is required and must be a non-empty string".to_string()));
    }
    assert(issue_views(out@) =~= start + name_issues(index as nat, o@));
    let ghost after_name = issue_views(out@);
    let kind = get_str(o, "kind");
    let mut composite = false;
    match kind {
        Some(k) => {
            let ks = k.as_str();
            if str_eq(ks, "composite") {
                composite = true;
            } else if !(str_eq(ks, "file_glob") || str_eq(ks, "dependency") || str_eq(ks, "regex")) {
                let mut m = "kind '".to_string();
                m.append(ks);
                m.append("' is not one of file_glob, dependency, regex, composite");
                out.push(issue(index, "kind", m));
            }
        },
        None => {
            out.push(
                issue(
                    index,
                    "kind",
                    "kind is required (one of file_glob, dependency, regex, composite)".to_string(),
                ),
            );
        },
    }
    assert(issue_views(out@) =~= after_name + kind_issues(index as nat, o@));
    let ghost after_kind = issue_views(out@);
    if composite {
        if !has_nonempty_array(o, "selectors") {
            out.push(
                issue(
                    index,
                    "selectors",
                    "composite selector requires a non-empty `selectors` array".to_string(),
                ),
            );
        }
    } else {
        let has_single = has_nonblank(o, "pattern");
        let has_many = has_nonempty_array(o, "patterns");
        if !has_single && !has_many {
            out.push(
                issue(index, "pattern", "pattern (string) or patterns (array) is required".to_string()),
            );
        }
    }
    assert(issue_views(out@) =~= after_kind + pattern_issues(index as nat, o@));
    assert(issue_views(out@) =~= start + entry_issues(index as nat, *entry));
}

/// Dry-run validate a custom selectors payload without persisting.
///
/// Surfaces shape errors per entry so the editor can show inline messages.
/// Validation is intentionally permissive: it checks the keys the indexer and
/// CLI rely on (`name`, `kind`, and a non-empty pattern field appropriate for
/// the kind) without locking in a specific DSL.
pub fn validate_custom_selectors(request: SaveCustomSelectorsRequest) -> (r:
    ValidateCustomSelectorsResponse)
    ensures
        issue_views(r.issues@) == all_issues(request.selectors@),
        r.ok == (r.issues@.len() == 0),
{
    let mut issues: Vec<SelectorValidationIssue> = Vec::new();
    let mut i: usize = 0;
    while i < request.selectors.len()
        invariant
            i <= request.selectors.len(),
            issue_views(issues@) == all_issues(request.selectors@.take(i as int)),
        decreases request.selectors.len() - i,
    {
        assert(request.selectors@.take(i + 1).drop_last() =~= request.selectors@.take(i as int));
        assert(request.selectors@.take(i + 1).last() == request.selectors@[i as int]);
        check_entry(i, &request.selectors[i], &mut issues);
        i += 1;
    }
    assert(request.selectors@.take(request.selectors.len() as int) =~= request.selectors@);
    let ok = issues.len() == 0;
    ValidateCustomSelectorsResponse { ok, issues }
}

/// A selector entry that is fine: an object with a non-blank string `name`, a `kind` that
/// is `file_glob`, `dependency`, `regex` or `composite`, and, for a composite, a non-empty
/// `selectors` array, for any other kind a non-blank `pattern` or a non-empty `patterns`
/// array.
pub open spec fn good_selector(entry: Json) -> bool {
    match entry {
        Json::Object(o) => {
            &&& (as_str(obj_get(o@, "name"@)) matches Some(n) && trim(n).len() > 0)
            &&& (as_str(obj_get(o@, "kind"@)) matches Some(k) && (k == "file_glob"@ || k
                == "dependency"@ || k == "regex"@ || k == "composite"@))
            &&& if as_str(obj_get(o@, "kind"@)) == Some("composite"@) {
                as_array(obj_get(o@, "selectors"@)) matches Some(a) && a.len() > 0
            } else {
                (as_str(obj_get(o@, "pattern"@)) matches Some(p) && trim(p).len() > 0) || (as_array(
                    obj_get(o@, "patterns"@),
                ) matches Some(a) && a.len() > 0)
            }
        },
        _ => false,
    }
}

/// A selector entry draws no issue exactly when it is fine, and each issue names the
/// entry it is about.
pub proof fn law_entry_issues_exactly_for_faults(i: nat, entry: Json)
    ensures
        entry_issues(i, entry).len() == 0 <==> good_selector(entry),
        forall|k: int|
            0 <= k < entry_issues(i, entry).len() ==> (#[trigger] entry_issues(i, entry)[k]).0 == i,
{
}

/// A payload draws no issue exactly when every entry in it is fine; every issue names
/// an entry of the payload.
pub proof fn law_payload_ok_exactly_when_entries_fine(entries: Seq<Json>)
    ensures
        all_issues(entries).len() == 0 <==> forall|k: int|
            0 <= k < entries.len() ==> good_selector(#[trigger] entries[k]),
        forall|k: int|
            0 <= k < all_issues(entries).len() ==> (#[trigger] all_issues(entries)[k]).0
                < entries.len(),
    decreases entries.len(),
{
    if entries.len() > 0 {
        let prev = entries.drop_last();
        let n = (entries.len() - 1) as nat;
        law_payload_ok_exactly_when_entries_fine(prev);
        law_entry_issues_exactly_for_faults(n, entries.last());
        let a = all_issues(prev);
        let b = entry_issues(n, entries.last());
        assert(all_issues(entries) == a + b);
        if a.len() == 0 && b.len() == 0 {
            assert forall|k: int| 0 <= k < entries.len() implies good_selector(
                #[trigger] entries[k],
            ) by {
                if k < prev.len() {
                    assert(prev[k] == entries[k]);
                }
            }
        }
        if forall|k: int| 0 <= k < entries.len() ==> good_selector(#[trigger] entries[k]) {
            assert forall|k: int| 0 <= k < prev.len() implies good_selector(
                #[trigger] prev[k],
            ) by {
                assert(prev[k] == entries[k]);
            }
            assert(good_selector(entries[entries.len() - 1]));
        }
        assert forall|k: int| 0 <= k < all_issues(entries).len() implies (
        #[trigger] all_issues(entries)[k]).0 < entries.len() by {
            if k < a.len() {
                assert(all_issues(entries)[k] == a[k]);
            } else {
                assert(all_issues(entries)[k] == b[k - a.len()]);
            }
        }
    }
}

/// The refusal of a save with more than `MAX_CUSTOM_SELECTORS_PER_USER` selectors.
pub fn check_selector_count(count: usize) -> (r: Result<(), AppError>)
    ensures
        r is Ok <==> count <= MAX_CUSTOM_SELECTORS_PER_USER,
        r matches Err(e) ==> e matches AppError::BadRequest(m) && m@ == "too many selectors: "@
            + decimal(count as nat) + " (max 200)"@,
{
    if count > MAX_CUSTOM_SELECTORS_PER_USER {
        let mut m = "too many selectors: ".to_string();
        m.append(usize_to_decimal(count).as_str());
        m.append(" (max 200)");
        return Err(AppError::BadRequest(m));
    }
    Ok(())
}

} // verus!
