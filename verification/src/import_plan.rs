//! The decisions of importing a repository's skills into flocks: which candidates
//! changed since the last import, where each flock's name comes from, and how the
//! stored skills of a flock are brought in line with the imported ones.
use vstd::prelude::*;

use crate::error::{error_view, AppError, ErrorKind};
use crate::git_url::{derive_repo_sign, git_url_parts, repo_sign};
use crate::jobs::contains_str;
use crate::json::str_eq;
use crate::text::{chars_of, concat, has_prefix, starts_with, string_of, strs_of};

verus! {

// ---------------------------------------------------------------------------
// Bringing stored skills in line with imported ones
// ---------------------------------------------------------------------------

/// The position of the last entry of `keys` equal to `k`, or -1.
pub open spec fn last_position(keys: Seq<Seq<char>>, k: Seq<char>) -> int
    decreases keys.len(),
{
    if keys.len() == 0 {
        -1
    } else if keys.last() == k {
        keys.len() - 1
    } else {
        last_position(keys.drop_last(), k)
    }
}

proof fn lemma_last_position(keys: Seq<Seq<char>>, k: Seq<char>)
    ensures
        -1 <= last_position(keys, k) < keys.len(),
        last_position(keys, k) >= 0 ==> keys[last_position(keys, k)] == k,
        last_position(keys, k) < 0 <==> !keys.contains(k),
    decreases keys.len(),
{
    if keys.len() > 0 {
        lemma_last_position(keys.drop_last(), k);
        if keys.last() != k {
            if keys.contains(k) {
                let j = choose|j: int| 0 <= j < keys.len() && keys[j] == k;
                assert(keys.drop_last()[j] == k);
            }
            if keys.drop_last().contains(k) {
                let j = choose|j: int| 0 <= j < keys.drop_last().len() && keys.drop_last()[j] == k;
                assert(keys[j] == k);
            }
        } else {
            assert(keys[keys.len() - 1] == k);
        }
    }
}

/// Where each imported entry goes: `(incoming, stored)` for an entry whose key a stored
/// row has (the last such row, as a map keyed by it keeps), in import order.
pub open spec fn sync_updates(existing: Seq<Seq<char>>, incoming: Seq<Seq<char>>) -> Seq<(int, int)>
    decreases incoming.len(),
{
    if incoming.len() == 0 {
        Seq::empty()
    } else {
        let prev = sync_updates(existing, incoming.drop_last());
        let p = last_position(existing, incoming.last());
        if p >= 0 {
            prev.push((incoming.len() - 1, p))
        } else {
            prev
        }
    }
}

/// The imported entries whose key no stored row has, in import order.
pub open spec fn sync_inserts(existing: Seq<Seq<char>>, incoming: Seq<Seq<char>>) -> Seq<int>
    decreases incoming.len(),
{
    if incoming.len() == 0 {
        Seq::empty()
    } else {
        let prev = sync_inserts(existing, incoming.drop_last());
        if last_position(existing, incoming.last()) < 0 {
            prev.push(incoming.len() - 1)
        } else {
            prev
        }
    }
}

/// The stored rows among the first `n` that a map keyed by path keeps (the last row of
/// each path) and whose path is not imported.
pub open spec fn path_removals(existing: Seq<Seq<char>>, incoming: Seq<Seq<char>>, n: nat) -> Seq<
    int,
>
    decreases n,
{
    if n == 0 {
        Seq::empty()
    } else {
        let prev = path_removals(existing, incoming, (n - 1) as nat);
        let k = n - 1;
        if last_position(existing, existing[k]) == k && !incoming.contains(existing[k]) {
            prev.push(k)
        } else {
            prev
        }
    }
}

/// The stored rows among the first `n` that are not deleted yet and whose slug is not
/// imported.
pub open spec fn stale_rows(
    existing: Seq<Seq<char>>,
    deleted: Seq<bool>,
    incoming: Seq<Seq<char>>,
    n: nat,
) -> Seq<int>
    decreases n,
{
    if n == 0 {
        Seq::empty()
    } else {
        let prev = stale_rows(existing, deleted, incoming, (n - 1) as nat);
        let k = n - 1;
        if !deleted[k] && !incoming.contains(existing[k]) {
            prev.push(k)
        } else {
            prev
        }
    }
}

/// The changes that bring the stored skills of a flock in line with the imported ones,
/// by position: imported entries that update a stored row, imported entries that are
/// new, and stored rows that go.
#[derive(Debug, Clone, PartialEq, Eq)]
pub struct SyncPlan {
    pub updates: Vec<(usize, usize)>,
    pub inserts: Vec<usize>,
    pub removals: Vec<usize>,
}

/// Positions as integers.
pub open spec fn positions(v: Seq<usize>) -> Seq<int> {
    Seq::new(v.len(), |i: int| v[i] as int)
}

/// Pairs of positions as integers.
pub open spec fn position_pairs(v: Seq<(usize, usize)>) -> Seq<(int, int)> {
    Seq::new(v.len(), |i: int| (v[i].0 as int, v[i].1 as int))
}

fn last_position_of(keys: &Vec<String>, k: &str) -> (r: Option<usize>)
    ensures
        match r {
            Some(p) => p as int == last_position(strs_of(keys@), k@),
            None => last_position(strs_of(keys@), k@) < 0,
        },
{
    let ghost ks = strs_of(keys@);
    let mut found: Option<usize> = None;
    let mut i: usize = 0;
    while i < keys.len()
        invariant
            i <= keys.len(),
            ks == strs_of(keys@),
            match found {
                Some(p) => p as int == last_position(ks.take(i as int), k@),
                None => last_position(ks.take(i as int), k@) < 0,
            },
        decreases keys.len() - i,
    {
        let ghost t = ks.take(i + 1);
        assert(t.drop_last() =~= ks.take(i as int));
        assert(t.last() == keys@[i as int]@);
        if str_eq(keys[i].as_str(), k) {
            found = Some(i);
        }
        i += 1;
    }
    assert(ks.take(keys.len() as int) =~= ks);
    found
}

/// The updates and inserts that bring stored rows keyed by `existing` in line with the
/// imported entries keyed by `incoming`.
fn plan_updates(existing: &Vec<String>, incoming: &Vec<String>) -> (r: (
    Vec<(usize, usize)>,
    Vec<usize>,
))
    ensures
        position_pairs(r.0@) == sync_updates(strs_of(existing@), strs_of(incoming@)),
        positions(r.1@) == sync_inserts(strs_of(existing@), strs_of(incoming@)),
{
    let ghost es = strs_of(existing@);
    let ghost is = strs_of(incoming@);
    let mut updates: Vec<(usize, usize)> = Vec::new();
    let mut inserts: Vec<usize> = Vec::new();
    let mut j: usize = 0;
    assert(position_pairs(updates@) =~= sync_updates(es, is.take(0)));
    assert(positions(inserts@) =~= sync_inserts(es, is.take(0)));
    while j < incoming.len()
        invariant
            j <= incoming.len(),
            es == strs_of(existing@),
            is == strs_of(incoming@),
            position_pairs(updates@) == sync_updates(es, is.take(j as int)),
            positions(inserts@) == sync_inserts(es, is.take(j as int)),
        decreases incoming.len() - j,
    {
        let ghost t = is.take(j + 1);
        assert(t.drop_last() =~= is.take(j as int));
        assert(t.last() == incoming@[j as int]@);
        let ghost before_u = position_pairs(updates@);
        let ghost before_i = positions(inserts@);
        match last_position_of(existing, incoming[j].as_str()) {
            Some(p) => {
                updates.push((j, p));
                assert(position_pairs(updates@) =~= before_u.push((j as int, p as int)));
            },
            None => {
                inserts.push(j);
                assert(positions(inserts@) =~= before_i.push(j as int));
            },
        }
        j += 1;
    }
    assert(is.take(incoming.len() as int) =~= is);
    (updates, inserts)
}

/// How a flock's stored skills, keyed by path, follow an import keyed by path: a stored
/// skill with an imported path is updated (the last one of that path), an imported path
/// without one is inserted, and the stored skills whose path is not imported are removed.
pub fn plan_path_sync(existing_paths: &Vec<String>, incoming_paths: &Vec<String>) -> (r: SyncPlan)
    ensures
        position_pairs(r.updates@) == sync_updates(strs_of(existing_paths@), strs_of(incoming_paths@)),
        positions(r.inserts@) == sync_inserts(strs_of(existing_paths@), strs_of(incoming_paths@)),
        positions(r.removals@) == path_removals(
            strs_of(existing_paths@),
            strs_of(incoming_paths@),
            existing_paths.len() as nat,
        ),
{
    let (updates, inserts) = plan_updates(existing_paths, incoming_paths);
    let ghost es = strs_of(existing_paths@);
    let ghost is = strs_of(incoming_paths@);
    let mut removals: Vec<usize> = Vec::new();
    let mut k: usize = 0;
    assert(positions(removals@) =~= path_removals(es, is, 0));
    while k < existing_paths.len()
        invariant
            k <= existing_paths.len(),
            es == strs_of(existing_paths@),
            is == strs_of(incoming_paths@),
            positions(removals@) == path_removals(es, is, k as nat),
        decreases existing_paths.len() - k,
    {
        let key = existing_paths[k].as_str();
        assert(es[k as int] == key@);
        let last = last_position_of(existing_paths, key);
        let kept_last = match last {
            Some(p) => p == k,
            None => false,
        };
        let ghost before = positions(removals@);
        if kept_last && !contains_str(incoming_paths, key) {
            removals.push(k);
            assert(positions(removals@) =~= before.push(k as int));
        }
        k += 1;
    }
    SyncPlan { updates, inserts, removals }
}

/// How a flock's stored skills, keyed by slug, follow an automatic import: a stored
/// skill with an imported slug is updated (the last one of that slug), an imported slug
/// without one is inserted, and, when anything is imported, the stored skills not yet
/// deleted whose slug is not imported are marked deleted.
pub fn plan_slug_sync(
    existing_slugs: &Vec<String>,
    existing_deleted: &Vec<bool>,
    incoming_slugs: &Vec<String>,
) -> (r: SyncPlan)
    requires
        existing_deleted.len() == existing_slugs.len(),
    ensures
        position_pairs(r.updates@) == sync_updates(strs_of(existing_slugs@), strs_of(incoming_slugs@)),
        positions(r.inserts@) == sync_inserts(strs_of(existing_slugs@), strs_of(incoming_slugs@)),
        positions(r.removals@) == if incoming_slugs.len() == 0 {
            Seq::<int>::empty()
        } else {
            stale_rows(
                strs_of(existing_slugs@),
                existing_deleted@,
                strs_of(incoming_slugs@),
                existing_slugs.len() as nat,
            )
        },
{
    let (updates, inserts) = plan_updates(existing_slugs, incoming_slugs);
    let ghost es = strs_of(existing_slugs@);
    let ghost is = strs_of(incoming_slugs@);
    let mut removals: Vec<usize> = Vec::new();
    if incoming_slugs.len() == 0 {
        assert(positions(removals@) =~= Seq::<int>::empty());
        return SyncPlan { updates, inserts, removals };
    }
    let mut k: usize = 0;
    assert(positions(removals@) =~= stale_rows(es, existing_deleted@, is, 0));
    while k < existing_slugs.len()
        invariant
            k <= existing_slugs.len(),
            existing_deleted.len() == existing_slugs.len(),
            es == strs_of(existing_slugs@),
            is == strs_of(incoming_slugs@),
            positions(removals@) == stale_rows(es, existing_deleted@, is, k as nat),
        decreases existing_slugs.len() - k,
    {
        let key = existing_slugs[k].as_str();
        assert(es[k as int] == key@);
        let ghost before = positions(removals@);
        if !existing_deleted[k] && !contains_str(incoming_slugs, key) {
            removals.push(k);
            assert(positions(removals@) =~= before.push(k as int));
        }
        k += 1;
    }
    SyncPlan { updates, inserts, removals }
}


proof fn lemma_sync_entries(existing: Seq<Seq<char>>, incoming: Seq<Seq<char>>)
    ensures
        forall|j: int|
            0 <= j < incoming.len() ==> (sync_inserts(existing, incoming).contains(j)
                <==> !existing.contains(incoming[j])),
        forall|j: int|
            0 <= j < incoming.len() && existing.contains(incoming[j]) ==> sync_updates(
                existing,
                incoming,
            ).contains((j, last_position(existing, incoming[j]))),
        forall|u: (int, int)|
            #[trigger] sync_updates(existing, incoming).contains(u) ==> 0 <= u.0 < incoming.len()
                && 0 <= u.1 < existing.len() && existing[u.1] == incoming[u.0],
        forall|k: int|
            #[trigger] sync_inserts(existing, incoming).contains(k) ==> 0 <= k < incoming.len(),
    decreases incoming.len(),
{
    if incoming.len() > 0 {
        let d = incoming.drop_last();
        let last = incoming.last();
        let n = incoming.len() - 1;
        lemma_sync_entries(existing, d);
        lemma_last_position(existing, last);
        let pu = sync_updates(existing, d);
        let pi = sync_inserts(existing, d);
        let u = sync_updates(existing, incoming);
        let ins = sync_inserts(existing, incoming);
        assert forall|j: int| 0 <= j < incoming.len() implies (ins.contains(j)
            <==> !existing.contains(incoming[j])) by {
            if j < n {
                assert(incoming[j] == d[j]);
                if ins.contains(j) && !pi.contains(j) {
                    let q = choose|q: int| 0 <= q < ins.len() && ins[q] == j;
                    assert(q == pi.len());
                }
                if pi.contains(j) {
                    let q = choose|q: int| 0 <= q < pi.len() && pi[q] == j;
                    assert(ins[q] == j);
                }
            } else {
                if !existing.contains(last) {
                    assert(ins[pi.len() as int] == n);
                } else if ins.contains(n) {
                    let q = choose|q: int| 0 <= q < ins.len() && ins[q] == n;
                    assert(pi.contains(n));
                }
            }
        }
        assert forall|j: int| 0 <= j < incoming.len() && existing.contains(incoming[j]) implies u.contains(
            (j, last_position(existing, incoming[j])),
        ) by {
            if j < n {
                assert(incoming[j] == d[j]);
                let q = choose|q: int| 0 <= q < pu.len() && pu[q] == (j, last_position(existing, d[j]));
                assert(u[q] == pu[q]);
            } else {
                assert(u[pu.len() as int] == (n, last_position(existing, last)));
            }
        }
        assert forall|w: (int, int)| #[trigger] u.contains(w) implies 0 <= w.0 < incoming.len()
            && 0 <= w.1 < existing.len() && existing[w.1] == incoming[w.0] by {
            let q = choose|q: int| 0 <= q < u.len() && u[q] == w;
            if q < pu.len() {
                assert(pu[q] == w);
                assert(pu.contains(w));
                assert(incoming[w.0] == d[w.0]);
            }
        }
        assert forall|k: int| #[trigger] ins.contains(k) implies 0 <= k < incoming.len() by {
            let q = choose|q: int| 0 <= q < ins.len() && ins[q] == k;
            if q < pi.len() {
                assert(pi[q] == k);
                assert(pi.contains(k));
            }
        }
    }
}

proof fn lemma_removals(existing: Seq<Seq<char>>, incoming: Seq<Seq<char>>, n: nat)
    requires
        n <= existing.len(),
    ensures
        forall|k: int|
            #[trigger] path_removals(existing, incoming, n).contains(k) ==> 0 <= k < n
                && !incoming.contains(existing[k]),
    decreases n,
{
    if n > 0 {
        lemma_removals(existing, incoming, (n - 1) as nat);
        let prev = path_removals(existing, incoming, (n - 1) as nat);
        let r = path_removals(existing, incoming, n);
        assert forall|k: int| #[trigger] r.contains(k) implies 0 <= k < n && !incoming.contains(
            existing[k],
        ) by {
            let q = choose|q: int| 0 <= q < r.len() && r[q] == k;
            if q < prev.len() {
                assert(prev[q] == k);
                assert(prev.contains(k));
            }
        }
    }
}

/// An import accounts for every imported entry once: an entry whose key a stored row has
/// updates a row with that key, any other entry is inserted, and no stored row whose
/// key is imported is removed.
pub proof fn law_sync_plan_covers_imports(existing: Seq<Seq<char>>, incoming: Seq<Seq<char>>)
    ensures
        forall|j: int|
            0 <= j < incoming.len() ==> (sync_inserts(existing, incoming).contains(j)
                <==> !existing.contains(incoming[j])),
        forall|j: int|
            0 <= j < incoming.len() && existing.contains(incoming[j]) ==> sync_updates(
                existing,
                incoming,
            ).contains((j, last_position(existing, incoming[j]))),
        forall|u: (int, int)|
            #[trigger] sync_updates(existing, incoming).contains(u) ==> 0 <= u.0 < incoming.len()
                && 0 <= u.1 < existing.len() && existing[u.1] == incoming[u.0],
        forall|k: int|
            #[trigger] path_removals(existing, incoming, existing.len()).contains(k) ==> 0 <= k
                < existing.len() && !incoming.contains(existing[k]),
{
    lemma_sync_entries(existing, incoming);
    lemma_removals(existing, incoming, existing.len());
}


// ---------------------------------------------------------------------------
// What an import works on
// ---------------------------------------------------------------------------

/// Whether an import looks only at what changed: it reuses a checkout that was imported
/// at a known commit, and it is not forced.
pub fn is_incremental(reused: bool, has_previous_commit: bool, force: bool) -> (r: bool)
    ensures
        r == (reused && has_previous_commit && !force),
{
    reused && has_previous_commit && !force
}

/// Whether the changed file `file` (a path in the checkout) lies in the skill directory
/// `prefix`.
pub open spec fn touches(file: Seq<char>, prefix: Seq<char>) -> bool {
    has_prefix(file, prefix + seq!['/']) || file == prefix
}

/// Whether a changed file lies in the skill directory `prefix`.
pub open spec fn changed_under(changed: Seq<Seq<char>>, prefix: Seq<char>) -> bool {
    exists|i: int| 0 <= i < changed.len() && touches(#[trigger] changed[i], prefix)
}

/// The candidates among the first `n` (by position) that an import works on: all of
/// them, unless it is incremental; then those with a changed file in their directory.
pub open spec fn worked_candidates(
    incremental: bool,
    prefixes: Seq<Seq<char>>,
    changed: Seq<Seq<char>>,
    n: nat,
) -> Seq<int>
    decreases n,
{
    if n == 0 {
        Seq::empty()
    } else {
        let prev = worked_candidates(incremental, prefixes, changed, (n - 1) as nat);
        if !incremental || changed_under(changed, prefixes[n - 1]) {
            prev.push(n - 1)
        } else {
            prev
        }
    }
}

fn is_changed_under(changed: &Vec<String>, prefix: &str) -> (r: bool)
    ensures
        r == changed_under(strs_of(changed@), prefix@),
{
    let dir = string_of(&concat(&chars_of(prefix), &chars_of("/")));
    proof {
        reveal_strlit("/");
    }
    assert(dir@ =~= prefix@ + seq!['/']);
    let ghost cs = strs_of(changed@);
    let mut i: usize = 0;
    while i < changed.len()
        invariant
            i <= changed.len(),
            cs == strs_of(changed@),
            dir@ == prefix@ + seq!['/'],
            forall|k: int| 0 <= k < i ==> !touches(#[trigger] cs[k], prefix@),
        decreases changed.len() - i,
    {
        let f = changed[i].as_str();
        assert(cs[i as int] == f@);
        if starts_with(&chars_of(f), &chars_of(dir.as_str())) || str_eq(f, prefix) {
            assert(touches(cs[i as int], prefix@));
            return true;
        }
        i += 1;
    }
    false
}

/// The candidates (by position; each with its directory in the checkout) that an import
/// works on, given the files changed since the last import.
pub fn changed_candidates(incremental: bool, prefixes: &Vec<String>, changed: &Vec<String>) -> (r:
    Vec<usize>)
    ensures
        positions(r@) == worked_candidates(
            incremental,
            strs_of(prefixes@),
            strs_of(changed@),
            prefixes.len() as nat,
        ),
{
    let ghost ps = strs_of(prefixes@);
    let mut out: Vec<usize> = Vec::new();
    let mut k: usize = 0;
    assert(positions(out@) =~= worked_candidates(incremental, ps, strs_of(changed@), 0));
    while k < prefixes.len()
        invariant
            k <= prefixes.len(),
            ps == strs_of(prefixes@),
            positions(out@) == worked_candidates(incremental, ps, strs_of(changed@), k as nat),
        decreases prefixes.len() - k,
    {
        assert(ps[k as int] == prefixes@[k as int]@);
        let ghost before = positions(out@);
        if !incremental || is_changed_under(changed, prefixes[k].as_str()) {
            out.push(k);
            assert(positions(out@) =~= before.push(k as int));
        }
        k += 1;
    }
    out
}

/// Whether a flock group has a candidate the import works on.
pub fn group_has_changes(group: &Vec<usize>, worked: &Vec<usize>) -> (r: bool)
    ensures
        r == exists|i: int| 0 <= i < group.len() && worked@.contains(#[trigger] group@[i]),
{
    let mut i: usize = 0;
    while i < group.len()
        invariant
            i <= group.len(),
            forall|k: int| 0 <= k < i ==> !worked@.contains(#[trigger] group@[k]),
        decreases group.len() - i,
    {
        let mut j: usize = 0;
        while j < worked.len()
            invariant
                j <= worked.len(),
                i < group.len(),
                forall|m: int| 0 <= m < j ==> worked@[m] != group@[i as int],
            decreases worked.len() - j,
        {
            if worked[j] == group[i] {
                assert(worked@.contains(group@[i as int]));
                return true;
            }
            j += 1;
        }
        i += 1;
    }
    false
}

// ---------------------------------------------------------------------------
// The flock groups of an automatic import
// ---------------------------------------------------------------------------

/// What the automatic import has learned of a flock group so far.
#[derive(Debug, Clone, Copy, PartialEq, Eq, Structural)]
pub enum GroupEvent {
    /// The group comes up: whether its slug is empty, whether the import is incremental,
    /// and whether any of its candidates changed.
    Started { slug_empty: bool, incremental: bool, has_changes: bool },
    /// The stored flock of the group's slug was looked up: whether one is stored.
    StoredFlock { found: bool },
    /// The group's skills were built: how many.
    Built { skill_count: usize },
}

/// What the automatic import does next with a flock group.
#[derive(Debug, Clone, Copy, PartialEq, Eq, Structural)]
pub enum GroupAction {
    /// Pass the group over: it is neither stored nor counted.
    Skip,
    /// Look up the stored flock of the group's slug.
    LookUpStoredFlock,
    /// Build the group's skills (after naming the flock).
    BuildSkills,
    /// Only move the stored flock's skills on to the new commit; the flock counts as
    /// imported.
    BumpCommit,
    /// Store the flock and its skills; the flock counts as imported.
    Persist,
}

/// The next step of the automatic import for a flock group: a group without a slug is
/// passed over; in an incremental import, a group none of whose candidates changed only
/// has its stored flock moved on to the new commit (and is built when no flock is
/// stored); a group whose build gives no skill is passed over, and any other is stored.
pub open spec fn group_action(e: GroupEvent) -> GroupAction {
    match e {
        GroupEvent::Started { slug_empty, incremental, has_changes } => if slug_empty {
            GroupAction::Skip
        } else if incremental && !has_changes {
            GroupAction::LookUpStoredFlock
        } else {
            GroupAction::BuildSkills
        },
        GroupEvent::StoredFlock { found } => if found {
            GroupAction::BumpCommit
        } else {
            GroupAction::BuildSkills
        },
        GroupEvent::Built { skill_count } => if skill_count == 0 {
            GroupAction::Skip
        } else {
            GroupAction::Persist
        },
    }
}

/// One step of the automatic import for a flock group.
pub fn auto_import_group_step(event: GroupEvent) -> (r: GroupAction)
    ensures
        r == group_action(event),
{
    match event {
        GroupEvent::Started { slug_empty, incremental, has_changes } => {
            if slug_empty {
                GroupAction::Skip
            } else if incremental && !has_changes {
                GroupAction::LookUpStoredFlock
            } else {
                GroupAction::BuildSkills
            }
        },
        GroupEvent::StoredFlock { found } => {
            if found {
                GroupAction::BumpCommit
            } else {
                GroupAction::BuildSkills
            }
        },
        GroupEvent::Built { skill_count } => {
            if skill_count == 0 {
                GroupAction::Skip
            } else {
                GroupAction::Persist
            }
        },
    }
}

/// Counts a flock group as imported: its slug joins the imported flocks and its
/// candidates join the skill count.
pub fn record_imported_flock(
    flock_slugs: &mut Vec<String>,
    total_skills: &mut usize,
    slug: &str,
    skill_count: usize,
)
    requires
        *old(total_skills) + skill_count <= usize::MAX,
    ensures
        strs_of(final(flock_slugs)@) == strs_of(old(flock_slugs)@).push(slug@),
        *final(total_skills) == *old(total_skills) + skill_count,
{
    let ghost before = strs_of(flock_slugs@);
    flock_slugs.push(slug.to_string());
    assert(strs_of(flock_slugs@) =~= before.push(slug@));
    *total_skills = *total_skills + skill_count;
}

/// The stored flocks of a repository that an automatic import retires: when it imported
/// any flock, the stored flocks not yet deleted whose slug it did not import.
pub fn stale_flocks(
    stored_slugs: &Vec<String>,
    stored_deleted: &Vec<bool>,
    imported_slugs: &Vec<String>,
) -> (r: Vec<usize>)
    requires
        stored_deleted.len() == stored_slugs.len(),
    ensures
        positions(r@) == if imported_slugs.len() == 0 {
            Seq::<int>::empty()
        } else {
            stale_rows(
                strs_of(stored_slugs@),
                stored_deleted@,
                strs_of(imported_slugs@),
                stored_slugs.len() as nat,
            )
        },
{
    plan_slug_sync(stored_slugs, stored_deleted, imported_slugs).removals
}

/// An automatic import stores or counts a flock group only as it should: a group
/// without a slug is never stored; in an incremental import a group with no changed
/// candidate is not rebuilt while its flock is stored; a group whose build gives no
/// skill is never stored; and a group counts as imported exactly when its flock is
/// stored or moved on.
pub proof fn law_group_steps(e: GroupEvent)
    ensures
        e matches GroupEvent::Started { slug_empty, .. } ==> (slug_empty ==> group_action(e)
            == GroupAction::Skip),
        e matches GroupEvent::Started { slug_empty, incremental, has_changes } ==> (!slug_empty
            && incremental && !has_changes ==> group_action(e) == GroupAction::LookUpStoredFlock),
        e matches GroupEvent::StoredFlock { found } ==> (found ==> group_action(e)
            == GroupAction::BumpCommit),
        e matches GroupEvent::Built { skill_count } ==> (skill_count == 0 <==> group_action(e)
            == GroupAction::Skip),
        (group_action(e) == GroupAction::BumpCommit) ==> e matches GroupEvent::StoredFlock { .. },
        (group_action(e) == GroupAction::Persist) ==> (e matches GroupEvent::Built { skill_count }
            && skill_count > 0),
{
}

// ---------------------------------------------------------------------------
// Names and descriptions
// ---------------------------------------------------------------------------

/// Where a flock's name and description come from.
#[derive(Debug, Clone, Copy, PartialEq, Eq, Structural)]
pub enum FlockNameSource {
    /// Kept from the stored flock: they were generated for this commit already.
    Stored,
    /// Taken from the flock's one skill.
    SingleSkill,
    /// Asked of a language model from the skills and the README.
    Generated,
}

/// Where a flock's name and description come from, given whether they were generated for
/// this commit already, whether the flock is stored, and how many skills it has.
pub fn flock_name_source(generated_for_commit: bool, stored: bool, skill_count: usize) -> (r:
    FlockNameSource)
    ensures
        r == if generated_for_commit && stored {
            FlockNameSource::Stored
        } else if skill_count == 1 {
            FlockNameSource::SingleSkill
        } else {
            FlockNameSource::Generated
        },
{
    if generated_for_commit && stored {
        FlockNameSource::Stored
    } else if skill_count == 1 {
        FlockNameSource::SingleSkill
    } else {
        FlockNameSource::Generated
    }
}

/// The description of a flock nothing better describes.
pub fn default_flock_description(flock_slug: &str) -> (r: String)
    ensures
        r@ == "Auto-imported flock: "@ + flock_slug@,
{
    string_of(&concat(&chars_of("Auto-imported flock: "), &chars_of(flock_slug)))
}

/// The progress shown while the flock group `group_index` of `total_groups` is stored:
/// from 70 towards 95 percent.
pub fn flock_progress(group_index: usize, total_groups: usize) -> (r: usize)
    requires
        group_index * 25 <= usize::MAX,
        70 + (group_index * 25) / (if total_groups > 0 {
            total_groups as int
        } else {
            1
        }) <= usize::MAX,
    ensures
        r == 70 + (group_index * 25) / (if total_groups > 0 {
            total_groups as int
        } else {
            1
        }),
{
    let total = if total_groups > 0 {
        total_groups
    } else {
        1
    };
    let share = group_index * 25 / total;
    70 + share
}

/// What happens to a repository's name, description and keywords after an import.
#[derive(Debug, Clone, Copy, PartialEq, Eq, Structural)]
pub enum RepoMetaStep {
    /// They were generated for this commit already: nothing changes.
    Cached,
    /// The repository has one flock: they are taken from it.
    FromFlock,
    /// The description is the placeholder: they are asked of a language model.
    Generate,
    /// They stay as they are.
    Keep,
}

/// What happens to a repository's metadata, given whether it was generated for this
/// commit already, how many flocks the import stored, and the current description.
pub fn repo_meta_step(generated_for_commit: bool, flock_count: usize, description: &str) -> (r:
    RepoMetaStep)
    ensures
        r == if generated_for_commit {
            RepoMetaStep::Cached
        } else if flock_count == 1 {
            RepoMetaStep::FromFlock
        } else if has_prefix(description@, "Auto-created repo for "@) {
            RepoMetaStep::Generate
        } else {
            RepoMetaStep::Keep
        },
{
    if generated_for_commit {
        RepoMetaStep::Cached
    } else if flock_count == 1 {
        RepoMetaStep::FromFlock
    } else if starts_with(&chars_of(description), &chars_of("Auto-created repo for ")) {
        RepoMetaStep::Generate
    } else {
        RepoMetaStep::Keep
    }
}

// ---------------------------------------------------------------------------
// Checks on an imported flock
// ---------------------------------------------------------------------------

/// Checks the directory an import scans: it must exist in the checkout and hold at least
/// one skill candidate. `scan_path` is the directory as the resolved rule names it.
pub fn check_scan_root(scan_root_exists: bool, candidate_count: usize, scan_path: &str) -> (r:
    Result<(), AppError>)
    ensures
        r is Ok <==> scan_root_exists && candidate_count > 0,
        r matches Err(e) ==> error_view(e) == if !scan_root_exists {
            (ErrorKind::BadRequest, "subdir `"@ + scan_path@ + "` not found in repo"@)
        } else {
            (ErrorKind::BadRequest, "no SKILL.md files found in repo"@)
        },
{
    if !scan_root_exists {
        let a = concat(&chars_of("subdir `"), &chars_of(scan_path));
        let b = concat(&a, &chars_of("` not found in repo"));
        return Err(AppError::BadRequest(string_of(&b)));
    }
    if candidate_count == 0 {
        return Err(AppError::BadRequest(String::from_str("no SKILL.md files found in repo")));
    }
    Ok(())
}

/// Checks that a flock document names its repository: by URL or by sign.
pub fn check_flock_repo(document_repo: &str, repo_git_url: &str) -> (r: Result<(), AppError>)
    ensures
        r is Ok <==> (document_repo@ == repo_git_url@ || document_repo@ == repo_sign(
            git_url_parts(repo_git_url@).0,
            git_url_parts(repo_git_url@).1,
        )),
        r matches Err(e) ==> error_view(e) == (
            ErrorKind::BadRequest,
            "flock repo `"@ + document_repo@ + "` does not match path repo `"@ + repo_sign(
                git_url_parts(repo_git_url@).0,
                git_url_parts(repo_git_url@).1,
            ) + "`"@,
        ),
{
    let sign = derive_repo_sign(repo_git_url);
    if !str_eq(document_repo, repo_git_url) && !str_eq(document_repo, sign.as_str()) {
        let a = concat(&chars_of("flock repo `"), &chars_of(document_repo));
        let b = concat(&a, &chars_of("` does not match path repo `"));
        let c = concat(&concat(&b, &chars_of(sign.as_str())), &chars_of("`"));
        return Err(AppError::BadRequest(string_of(&c)));
    }
    Ok(())
}

/// The position of the first of the first `n` slugs that repeats an earlier one.
pub open spec fn repeat_position(slugs: Seq<Seq<char>>, n: nat) -> Option<int>
    decreases n,
{
    if n == 0 {
        None
    } else {
        match repeat_position(slugs, (n - 1) as nat) {
            Some(i) => Some(i),
            None => if slugs.take(n - 1).contains(slugs[n - 1]) {
                Some(n - 1)
            } else {
                None
            },
        }
    }
}

/// The position of the first of the first `n` featured skills that is not among `slugs`.
pub open spec fn missing_position(slugs: Seq<Seq<char>>, featured: Seq<Seq<char>>, n: nat) -> Option<
    int,
>
    decreases n,
{
    if n == 0 {
        None
    } else {
        match missing_position(slugs, featured, (n - 1) as nat) {
            Some(i) => Some(i),
            None => if !slugs.contains(featured[n - 1]) {
                Some(n - 1)
            } else {
                None
            },
        }
    }
}

/// Checks the skill slugs of an imported flock: no slug twice (the first repeat is
/// reported), then every featured skill among them (the first missing one is reported).
pub fn check_import_slugs(slugs: &Vec<String>, featured: &Vec<String>) -> (r: Result<(), AppError>)
    ensures
        r is Ok <==> (strs_of(slugs@).no_duplicates() && forall|f: int|
            0 <= f < featured.len() ==> strs_of(slugs@).contains(#[trigger] featured@[f]@)),
        match r {
            Ok(_) => repeat_position(strs_of(slugs@), slugs.len() as nat) is None
                && missing_position(strs_of(slugs@), strs_of(featured@), featured.len() as nat) is None,
            Err(e) => match repeat_position(strs_of(slugs@), slugs.len() as nat) {
                Some(i) => error_view(e) == (
                    ErrorKind::BadRequest,
                    "duplicate flock skill slug `"@ + strs_of(slugs@)[i] + "`"@,
                ),
                None => missing_position(
                    strs_of(slugs@),
                    strs_of(featured@),
                    featured.len() as nat,
                ) matches Some(f) && error_view(e) == (
                    ErrorKind::BadRequest,
                    "featured skill `"@ + strs_of(featured@)[f]
                        + "` is not present in the imported skills list"@,
                ),
            },
        },
{
    let ghost ss = strs_of(slugs@);
    let ghost fs = strs_of(featured@);
    let mut seen: Vec<String> = Vec::new();
    let mut i: usize = 0;
    while i < slugs.len()
        invariant
            i <= slugs.len(),
            ss == strs_of(slugs@),
            strs_of(seen@) == ss.take(i as int),
            ss.take(i as int).no_duplicates(),
            repeat_position(ss, i as nat) is None,
        decreases slugs.len() - i,
    {
        let s = slugs[i].as_str();
        assert(ss[i as int] == s@);
        if contains_str(&seen, s) {
            assert(repeat_position(ss, (i + 1) as nat) == Some(i as int));
            proof {
                lemma_repeat_stays(ss, (i + 1) as nat, slugs.len() as nat);
                let k = choose|k: int| 0 <= k < i && ss.take(i as int)[k] == s@;
                assert(ss[k] == ss[i as int]);
            }
            let a = concat(&chars_of("duplicate flock skill slug `"), &chars_of(s));
            return Err(AppError::BadRequest(string_of(&concat(&a, &chars_of("`")))));
        }
        let ghost before = strs_of(seen@);
        seen.push(s.to_string());
        assert(strs_of(seen@) =~= before.push(s@));
        assert(ss.take(i + 1) =~= ss.take(i as int).push(ss[i as int]));
        assert(ss.take(i + 1).drop_last() =~= ss.take(i as int));
        i += 1;
    }
    assert(ss.take(slugs.len() as int) =~= ss);
    let mut f: usize = 0;
    while f < featured.len()
        invariant
            f <= featured.len(),
            ss == strs_of(slugs@),
            fs == strs_of(featured@),
            ss.no_duplicates(),
            repeat_position(ss, slugs.len() as nat) is None,
            missing_position(ss, fs, f as nat) is None,
            forall|m: int| 0 <= m < f ==> ss.contains(#[trigger] featured@[m]@),
        decreases featured.len() - f,
    {
        assert(fs[f as int] == featured@[f as int]@);
        if !contains_str(slugs, featured[f].as_str()) {
            assert(missing_position(ss, fs, (f + 1) as nat) == Some(f as int));
            proof {
                lemma_missing_stays(ss, fs, (f + 1) as nat, featured.len() as nat);
            }
            let a = concat(&chars_of("featured skill `"), &chars_of(featured[f].as_str()));
            return Err(
                AppError::BadRequest(
                    string_of(
                        &concat(&a, &chars_of("` is not present in the imported skills list")),
                    ),
                ),
            );
        }
        f += 1;
    }
    Ok(())
}

proof fn lemma_repeat_stays(slugs: Seq<Seq<char>>, n: nat, m: nat)
    requires
        n <= m,
        repeat_position(slugs, n) is Some,
    ensures
        repeat_position(slugs, m) == repeat_position(slugs, n),
    decreases m - n,
{
    if n < m {
        lemma_repeat_stays(slugs, n, (m - 1) as nat);
    }
}

proof fn lemma_missing_stays(slugs: Seq<Seq<char>>, featured: Seq<Seq<char>>, n: nat, m: nat)
    requires
        n <= m,
        missing_position(slugs, featured, n) is Some,
    ensures
        missing_position(slugs, featured, m) == missing_position(slugs, featured, n),
    decreases m - n,
{
    if n < m {
        lemma_missing_stays(slugs, featured, n, (m - 1) as nat);
    }
}


// ---------------------------------------------------------------------------
// The skills of an imported flock
// ---------------------------------------------------------------------------

/// The first word of a skill name, ASCII lower-cased, when it has one.
pub open spec fn first_word(name: Seq<char>) -> Option<Seq<char>> {
    let ws = crate::search::words(name);
    if ws.len() > 0 {
        Some(crate::text::ascii_lower_seq(ws[0]))
    } else {
        None
    }
}

/// Whether the skills of a flock are named with the flock's prefix: when there are
/// several, unless all the names that have a first word share it.
pub open spec fn needs_prefix(names: Seq<Seq<char>>) -> bool {
    names.len() > 1 && ((forall|i: int| 0 <= i < names.len() ==> #[trigger] first_word(names[i])
        is None) || exists|i: int, j: int|
        0 <= i < names.len() && 0 <= j < names.len() && #[trigger] first_word(names[i]) is Some
            && #[trigger] first_word(names[j]) is Some && first_word(names[i]) != first_word(
            names[j],
        ))
}

fn first_word_of(name: &str) -> (r: Option<Vec<char>>)
    ensures
        match r {
            Some(w) => first_word(name@) == Some(w@),
            None => first_word(name@) is None,
        },
{
    let ws = crate::search::split_words(name);
    if ws.len() > 0 {
        assert(crate::text::seqs_of(ws@)[0] == ws@[0]@);
        Some(crate::text::ascii_lower_vec(&ws[0]))
    } else {
        None
    }
}

/// Whether the skills of a flock, named `names`, get the flock's prefix.
pub fn flock_prefix_needed(names: &Vec<String>) -> (r: bool)
    ensures
        r == needs_prefix(strs_of(names@)),
{
    let ghost ns = strs_of(names@);
    if names.len() <= 1 {
        return false;
    }
    let mut seen: Option<Vec<char>> = None;
    let mut seen_at: usize = 0;
    let mut i: usize = 0;
    while i < names.len()
        invariant
            i <= names.len(),
            names.len() > 1,
            ns == strs_of(names@),
            match seen {
                Some(w) => seen_at < i && first_word(ns[seen_at as int]) == Some(w@) && forall|k: int|
                    0 <= k < i && (#[trigger] first_word(ns[k])) is Some ==> first_word(ns[k])
                        == Some(w@),
                None => forall|k: int| 0 <= k < i ==> (#[trigger] first_word(ns[k])) is None,
            },
        decreases names.len() - i,
    {
        assert(ns[i as int] == names@[i as int]@);
        match first_word_of(names[i].as_str()) {
            Some(w) => {
                match &seen {
                    Some(prev) => {
                        if !crate::text::chars_eq(prev, &w) {
                            assert(first_word(ns[seen_at as int]) != first_word(ns[i as int]));
                            return true;
                        }
                    },
                    None => {
                        seen = Some(w);
                        seen_at = i;
                    },
                }
            },
            None => {},
        }
        i += 1;
    }
    match seen {
        Some(_) => {
            assert(!(forall|k: int| 0 <= k < ns.len() ==> (#[trigger] first_word(ns[k])) is None)) by {
                assert(first_word(ns[seen_at as int]) is Some);
            }
            false
        },
        None => true,
    }
}

/// The skills of a flock (by position) that are kept, given their slugs: each non-empty
/// slug the first time it appears.
pub fn kept_skill_slugs(slugs: &Vec<String>) -> (r: Vec<usize>)
    ensures
        forall|k: int| 0 <= k < r@.len() ==> #[trigger] r@[k] < slugs.len(),
        forall|a: int, b: int| 0 <= a < b < r@.len() ==> #[trigger] r@[a] < #[trigger] r@[b],
        forall|j: int|
            0 <= j < slugs.len() ==> (r@.contains(j as usize) <==> (strs_of(slugs@)[j].len() > 0
                && !strs_of(slugs@).take(j).contains(#[trigger] strs_of(slugs@)[j]))),
{
    let ghost ss = strs_of(slugs@);
    let mut out: Vec<usize> = Vec::new();
    let mut seen: Vec<String> = Vec::new();
    let mut j: usize = 0;
    while j < slugs.len()
        invariant
            j <= slugs.len(),
            ss == strs_of(slugs@),
            strs_of(seen@) == ss.take(j as int).filter(|x: Seq<char>| x.len() > 0),
            forall|k: int| 0 <= k < out@.len() ==> #[trigger] out@[k] < j,
            forall|a: int, b: int| 0 <= a < b < out@.len() ==> #[trigger] out@[a] < #[trigger] out@[b],
            forall|m: int|
                0 <= m < j ==> (out@.contains(m as usize) <==> (ss[m].len() > 0 && !ss.take(
                    m,
                ).contains(#[trigger] ss[m]))),
        decreases slugs.len() - j,
    {
        let s = slugs[j].as_str();
        assert(ss[j as int] == s@);
        let ghost pre = ss.take(j as int);
        let ghost nonempty = |x: Seq<char>| x.len() > 0;
        let already = contains_str(&seen, s);
        proof {
            if already {
                assert(pre.filter(nonempty).contains(s@));
                pre.lemma_filter_contains_rev(nonempty, s@);
            }
            if s@.len() > 0 && pre.contains(s@) {
                let q = choose|q: int| 0 <= q < pre.len() && pre[q] == s@;
                pre.lemma_filter_contains(nonempty, q);
            }
        }
        let ghost before = out@;
        if !s.is_empty() && !already {
            out.push(j);
        }
        let ghost seen_before = strs_of(seen@);
        if !s.is_empty() {
            seen.push(s.to_string());
            assert(strs_of(seen@) =~= seen_before.push(s@));
        }
        proof {
            assert(ss.take(j + 1) =~= pre.push(s@));
            pre.lemma_filter_push(s@, nonempty);
            assert forall|m: int| 0 <= m < j + 1 implies (out@.contains(m as usize) <==> (ss[m].len()
                > 0 && !ss.take(m).contains(#[trigger] ss[m]))) by {
                if m < j {
                    if out@.contains(m as usize) && !before.contains(m as usize) {
                        let q = choose|q: int| 0 <= q < out@.len() && out@[q] == m as usize;
                        assert(q == before.len());
                    }
                    if before.contains(m as usize) {
                        let q = choose|q: int| 0 <= q < before.len() && before[q] == m as usize;
                        assert(out@[q] == m as usize);
                    }
                } else {
                    if s@.len() > 0 && !already {
                        assert(out@[before.len() as int] == j);
                    } else if out@.contains(j) {
                        let q = choose|q: int| 0 <= q < out@.len() && out@[q] == j;
                        assert(before[q] < j);
                    }
                }
            }
        }
        j += 1;
    }
    out
}

} // verus!
