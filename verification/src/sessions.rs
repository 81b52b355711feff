//! The sign-in sessions a browser keeps: which are kept, in which order they are listed,
//! and how signing in, using and removing a session change them; and how the sign-in
//! state is read from the address after a login.
use vstd::prelude::*;

use crate::json::str_eq;
use crate::location::{param_value, parse_hash_params, pair_lookup, hash_segments, last_value};
use crate::model::{UserRole, UserSummary};
use crate::order::strictly_sorted;
use crate::text::{chars_of, trim, trim_vec};

verus! {

/// A stored sign-in session; `last_used_at` is a Unix time in seconds.
#[derive(Debug, Clone, PartialEq)]
pub struct StoredAuthSession {
    pub token: String,
    pub handle: String,
    pub display_name: Option<String>,
    pub avatar_url: Option<String>,
    pub role: UserRole,
    pub last_used_at: i64,
}

/// A session as plain values: token, handle, display name, avatar, role, last use.
pub type SessionView = (Seq<char>, Seq<char>, Option<Seq<char>>, Option<Seq<char>>, UserRole, i64);

/// The view of an optional string.
pub open spec fn opt_view(v: Option<String>) -> Option<Seq<char>> {
    match v {
        Some(s) => Some(s@),
        None => None,
    }
}

/// A session as plain values.
pub open spec fn session_view(s: StoredAuthSession) -> SessionView {
    (s.token@, s.handle@, opt_view(s.display_name), opt_view(s.avatar_url), s.role, s.last_used_at)
}

/// Sessions as plain values.
pub open spec fn sessions_view(v: Seq<StoredAuthSession>) -> Seq<SessionView> {
    Seq::new(v.len(), |i: int| session_view(v[i]))
}

/// Whether a session is kept: its token and handle are not blank.
pub open spec fn usable(s: SessionView) -> bool {
    trim(s.0).len() > 0 && trim(s.1).len() > 0
}

/// Sessions sorted by last use, most recent first, with `x` placed after every session
/// used at least as recently (so that sessions used at the same time keep their order).
pub open spec fn insert_by_recency(sorted: Seq<SessionView>, x: SessionView) -> Seq<SessionView>
    decreases sorted.len(),
{
    if sorted.len() == 0 {
        seq![x]
    } else if sorted[0].5 >= x.5 {
        seq![sorted[0]] + insert_by_recency(sorted.drop_first(), x)
    } else {
        seq![x] + sorted
    }
}

/// Sessions in order of last use, most recent first; sessions used at the same time keep
/// their order (a stable sort).
pub open spec fn by_recency(s: Seq<SessionView>) -> Seq<SessionView>
    decreases s.len(),
{
    if s.len() == 0 {
        Seq::empty()
    } else {
        insert_by_recency(by_recency(s.drop_last()), s.last())
    }
}

/// The sessions worth keeping, most recently used first.
pub open spec fn normalized_sessions(s: Seq<SessionView>) -> Seq<SessionView> {
    by_recency(s.filter(|x: SessionView| usable(x)))
}

proof fn lemma_insert_at(s: Seq<SessionView>, x: SessionView, p: int)
    requires
        0 <= p <= s.len(),
        forall|k: int| 0 <= k < p ==> #[trigger] s[k].5 >= x.5,
        p < s.len() ==> s[p].5 < x.5,
    ensures
        insert_by_recency(s, x) == s.insert(p, x),
    decreases s.len(),
{
    if s.len() == 0 {
        assert(s.insert(p, x) =~= seq![x]);
    } else if p == 0 {
        assert(s.insert(0, x) =~= seq![x] + s);
    } else {
        assert forall|k: int| 0 <= k < p - 1 implies #[trigger] s.drop_first()[k].5 >= x.5 by {
            assert(s.drop_first()[k] == s[k + 1]);
        }
        lemma_insert_at(s.drop_first(), x, p - 1);
        assert(s.insert(p, x) =~= seq![s[0]] + s.drop_first().insert(p - 1, x));
    }
}

/// Where a session last used at `at` goes in a list ordered by recency.
fn recency_position(v: &Vec<StoredAuthSession>, at: i64) -> (r: usize)
    ensures
        r <= v.len(),
        forall|k: int| 0 <= k < r ==> #[trigger] v@[k].last_used_at >= at,
        r < v.len() ==> v@[r as int].last_used_at < at,
{
    let mut i: usize = 0;
    while i < v.len()
        invariant
            i <= v.len(),
            forall|k: int| 0 <= k < i ==> #[trigger] v@[k].last_used_at >= at,
        decreases v.len() - i,
    {
        if v[i].last_used_at < at {
            return i;
        }
        i += 1;
    }
    i
}

/// Whether a session's token and handle are not blank.
fn is_usable(s: &StoredAuthSession) -> (r: bool)
    ensures
        r == usable(session_view(*s)),
{
    trim_vec(&chars_of(s.token.as_str())).len() > 0 && trim_vec(&chars_of(s.handle.as_str())).len()
        > 0
}

/// The sessions whose token and handle are not blank, most recently used first (sessions
/// used at the same time keep their order).
pub fn normalize_auth_sessions(sessions: Vec<StoredAuthSession>) -> (r: Vec<StoredAuthSession>)
    ensures
        sessions_view(r@) == normalized_sessions(sessions_view(sessions@)),
{
    let ghost sv = sessions_view(sessions@);
    let ghost keep = |x: SessionView| usable(x);
    let mut rest = sessions;
    let mut out: Vec<StoredAuthSession> = Vec::new();
    let ghost mut i: int = 0;
    assert(sv.take(0) =~= Seq::<SessionView>::empty());
    assert(sv.take(0).filter(keep) =~= Seq::<SessionView>::empty());
    assert(sessions_view(out@) =~= by_recency(sv.take(0).filter(keep)));
    assert(sessions_view(rest@) =~= sv.skip(0));
    while rest.len() > 0
        invariant
            0 <= i <= sv.len(),
            sessions_view(rest@) == sv.skip(i),
            keep == (|x: SessionView| usable(x)),
            sessions_view(out@) == by_recency(sv.take(i).filter(keep)),
        decreases rest.len(),
    {
        let ghost before_rest = sessions_view(rest@);
        let ghost before_out = sessions_view(out@);
        let ghost prev = sv.take(i).filter(keep);
        assert(before_rest.len() == rest.len());
        assert(sv.skip(i)[0] == sv[i]);
        let s = rest.remove(0);
        let ghost x = session_view(s);
        assert(before_rest[0] == x);
        assert(x == sv[i]);
        assert(sv.take(i + 1) =~= sv.take(i).push(x));
        proof {
            sv.take(i).lemma_filter_push(x, keep);
        }
        if is_usable(&s) {
            let p = recency_position(&out, s.last_used_at);
            proof {
                assert forall|k: int| 0 <= k < p implies #[trigger] before_out[k].5 >= x.5 by {
                    assert(before_out[k].5 == out@[k].last_used_at);
                }
                lemma_insert_at(before_out, x, p as int);
                assert(prev.push(x).drop_last() =~= prev);
            }
            out.insert(p, s);
            assert(sessions_view(out@) =~= before_out.insert(p as int, x));
        }
        assert(sessions_view(rest@) =~= before_rest.drop_first());
        proof {
            i = i + 1;
        }
        assert(sv.skip(i) =~= sv.skip(i - 1).drop_first());
    }
    assert(sv.skip(i).len() == 0);
    assert(sv.take(i) =~= sv);
    out
}

/// Every session in a list ordered by recency was used at least as recently as the ones
/// after it.
pub open spec fn most_recent_first(s: Seq<SessionView>) -> bool {
    forall|i: int, j: int| 0 <= i < j < s.len() ==> #[trigger] s[i].5 >= #[trigger] s[j].5
}

proof fn lemma_insert_keeps_order(s: Seq<SessionView>, x: SessionView)
    requires
        most_recent_first(s),
    ensures
        most_recent_first(insert_by_recency(s, x)),
        insert_by_recency(s, x).to_multiset() == s.to_multiset().insert(x),
        insert_by_recency(s, x).len() == s.len() + 1,
    decreases s.len(),
{
    broadcast use vstd::seq_lib::group_to_multiset_ensures;

    let r = insert_by_recency(s, x);
    if s.len() == 0 {
        assert(r =~= Seq::<SessionView>::empty().push(x));
    } else if s[0].5 >= x.5 {
        let rest = s.drop_first();
        assert forall|i: int, j: int| 0 <= i < j < rest.len() implies #[trigger] rest[i].5
            >= #[trigger] rest[j].5 by {
            assert(rest[i] == s[i + 1] && rest[j] == s[j + 1]);
        }
        lemma_insert_keeps_order(rest, x);
        let tail = insert_by_recency(rest, x);
        assert(r == seq![s[0]] + tail);
        assert forall|i: int, j: int| 0 <= i < j < r.len() implies #[trigger] r[i].5
            >= #[trigger] r[j].5 by {
            if i == 0 {
                assert(tail.to_multiset().count(tail[j - 1]) > 0);
                assert((rest.to_multiset().insert(x)).count(tail[j - 1]) > 0);
                if tail[j - 1] != x {
                    assert(rest.to_multiset().count(tail[j - 1]) > 0);
                    assert(rest.contains(tail[j - 1]));
                    let k = choose|k: int| 0 <= k < rest.len() && rest[k] == tail[j - 1];
                    assert(s[k + 1] == rest[k]);
                }
            } else {
                assert(r[i] == tail[i - 1] && r[j] == tail[j - 1]);
            }
        }
        assert(r =~= tail.insert(0, s[0]));
        vstd::seq_lib::to_multiset_insert(tail, 0, s[0]);
        assert(s =~= rest.insert(0, s[0]));
        vstd::seq_lib::to_multiset_insert(rest, 0, s[0]);
        assert(r.to_multiset() =~= s.to_multiset().insert(x));
    } else {
        assert(r =~= s.insert(0, x));
        vstd::seq_lib::to_multiset_insert(s, 0, x);
        assert forall|i: int, j: int| 0 <= i < j < r.len() implies #[trigger] r[i].5
            >= #[trigger] r[j].5 by {
            if i == 0 {
                assert(r[j] == s[j - 1]);
                if j - 1 > 0 {
                    assert(s[0].5 >= s[j - 1].5);
                }
            } else {
                assert(r[i] == s[i - 1] && r[j] == s[j - 1]);
            }
        }
    }
}

proof fn lemma_by_recency(s: Seq<SessionView>)
    ensures
        most_recent_first(by_recency(s)),
        by_recency(s).to_multiset() == s.to_multiset(),
    decreases s.len(),
{
    broadcast use vstd::seq_lib::group_to_multiset_ensures;

    if s.len() == 0 {
        assert(by_recency(s) =~= s);
    } else {
        lemma_by_recency(s.drop_last());
        lemma_insert_keeps_order(by_recency(s.drop_last()), s.last());
        assert(s =~= s.drop_last().push(s.last()));
    }
}

/// The kept sessions are listed most recently used first, they are exactly the usable
/// sessions (none lost, none added), and keeping them again changes nothing.
pub proof fn law_sessions_most_recent_first(s: Seq<SessionView>)
    ensures
        most_recent_first(normalized_sessions(s)),
        normalized_sessions(s).to_multiset() == s.filter(|x: SessionView| usable(x)).to_multiset(),
        forall|i: int|
            0 <= i < normalized_sessions(s).len() ==> usable(#[trigger] normalized_sessions(s)[i]),
        normalized_sessions(normalized_sessions(s)) == normalized_sessions(s),
{
    broadcast use vstd::seq_lib::group_to_multiset_ensures;

    let f = s.filter(|x: SessionView| usable(x));
    lemma_by_recency(f);
    let n = normalized_sessions(s);
    assert forall|i: int| 0 <= i < n.len() implies usable(#[trigger] n[i]) by {
        assert(n.to_multiset().count(n[i]) > 0);
        assert(f.to_multiset().count(n[i]) > 0);
        assert(f.contains(n[i]));
        let k = choose|k: int| 0 <= k < f.len() && f[k] == n[i];
        s.lemma_filter_pred(|x: SessionView| usable(x), k);
    }
    assert(n.filter(|x: SessionView| usable(x)) =~= n) by {
        lemma_filter_all(n);
    }
    lemma_sorted_fixed(n);
}

proof fn lemma_filter_all(s: Seq<SessionView>)
    requires
        forall|i: int| 0 <= i < s.len() ==> usable(#[trigger] s[i]),
    ensures
        s.filter(|x: SessionView| usable(x)) == s,
    decreases s.len(),
{
    reveal(Seq::filter);
    if s.len() > 0 {
        lemma_filter_all(s.drop_last());
        assert(s.drop_last().push(s.last()) =~= s);
    } else {
        assert(s.filter(|x: SessionView| usable(x)) =~= s);
    }
}

proof fn lemma_sorted_fixed(s: Seq<SessionView>)
    requires
        most_recent_first(s),
    ensures
        by_recency(s) == s,
    decreases s.len(),
{
    if s.len() > 0 {
        let d = s.drop_last();
        assert forall|i: int, j: int| 0 <= i < j < d.len() implies #[trigger] d[i].5
            >= #[trigger] d[j].5 by {
            assert(d[i] == s[i] && d[j] == s[j]);
        }
        lemma_sorted_fixed(d);
        assert forall|k: int| 0 <= k < d.len() implies #[trigger] d[k].5 >= s.last().5 by {
            assert(d[k] == s[k]);
        }
        lemma_insert_at(d, s.last(), d.len() as int);
        assert(d.insert(d.len() as int, s.last()) =~= s);
    } else {
        assert(by_recency(s) =~= s);
    }
}

// ---------------------------------------------------------------------------
// Signing in, using and removing sessions
// ---------------------------------------------------------------------------

/// The position of the first session with `token`, or -1.
pub open spec fn token_position(s: Seq<SessionView>, token: Seq<char>) -> int
    decreases s.len(),
{
    if s.len() == 0 {
        -1
    } else if s[0].0 == token {
        0
    } else {
        let r = token_position(s.drop_first(), token);
        if r < 0 {
            -1
        } else {
            r + 1
        }
    }
}

proof fn lemma_token_position(s: Seq<SessionView>, token: Seq<char>)
    ensures
        -1 <= token_position(s, token) < s.len(),
        token_position(s, token) >= 0 ==> s[token_position(s, token)].0 == token && forall|k: int|
            0 <= k < token_position(s, token) ==> #[trigger] s[k].0 != token,
        token_position(s, token) < 0 ==> forall|k: int| 0 <= k < s.len() ==> #[trigger] s[k].0 != token,
    decreases s.len(),
{
    if s.len() > 0 {
        let d = s.drop_first();
        lemma_token_position(d, token);
        if s[0].0 != token {
            let r = token_position(d, token);
            if r >= 0 {
                assert(s[r + 1] == d[r]);
                assert forall|k: int| 0 <= k < r + 1 implies #[trigger] s[k].0 != token by {
                    if k > 0 {
                        assert(s[k] == d[k - 1]);
                    }
                }
            } else {
                assert forall|k: int| 0 <= k < s.len() implies #[trigger] s[k].0 != token by {
                    if k > 0 {
                        assert(s[k] == d[k - 1]);
                    }
                }
            }
        }
    }
}

fn find_token(v: &Vec<StoredAuthSession>, token: &str) -> (r: Option<usize>)
    ensures
        match r {
            Some(i) => i as int == token_position(sessions_view(v@), token@),
            None => token_position(sessions_view(v@), token@) < 0,
        },
{
    let mut i: usize = 0;
    while i < v.len()
        invariant
            i <= v.len(),
            forall|k: int| 0 <= k < i ==> #[trigger] v@[k].token@ != token@,
        decreases v.len() - i,
    {
        if str_eq(v[i].token.as_str(), token) {
            proof {
                lemma_token_position(sessions_view(v@), token@);
                let p = token_position(sessions_view(v@), token@);
                assert(sessions_view(v@)[i as int].0 == token@);
                if p >= 0 && p < i {
                    assert(sessions_view(v@)[p].0 == v@[p].token@);
                    assert(v@[p].token@ != token@);
                }
            }
            return Some(i);
        }
        i += 1;
    }
    proof {
        lemma_token_position(sessions_view(v@), token@);
        let p = token_position(sessions_view(v@), token@);
        if p >= 0 {
            assert(sessions_view(v@)[p].0 == token@);
            assert(v@[p].token@ == token@);
        }
    }
    None
}

/// A user as plain values: handle, display name, avatar, role.
pub open spec fn user_view(u: UserSummary) -> (Seq<char>, Option<Seq<char>>, Option<Seq<char>>, UserRole) {
    (u.handle@, opt_view(u.display_name), opt_view(u.avatar_url), u.role)
}

/// The sessions after signing in with `token` as `user` at time `now`: the session with
/// that token takes the user's details and the time, or a new session is added; then the
/// usable sessions are listed most recent first.
pub open spec fn sessions_after_sign_in(
    s: Seq<SessionView>,
    token: Seq<char>,
    user: (Seq<char>, Option<Seq<char>>, Option<Seq<char>>, UserRole),
    now: i64,
) -> Seq<SessionView> {
    let p = token_position(s, token);
    let fresh = (token, user.0, user.1, user.2, user.3, now);
    normalized_sessions(
        if p >= 0 {
            s.update(p, fresh)
        } else {
            s.push(fresh)
        },
    )
}

fn clone_opt(v: &Option<String>) -> (r: Option<String>)
    ensures
        opt_view(r) == opt_view(*v),
{
    match v {
        Some(s) => Some(s.clone()),
        None => None,
    }
}

/// The sessions after signing in with `token` as `user` at time `now`.
pub fn upsert_auth_session(
    sessions: Vec<StoredAuthSession>,
    token: &str,
    user: &UserSummary,
    now: i64,
) -> (r: Vec<StoredAuthSession>)
    ensures
        sessions_view(r@) == sessions_after_sign_in(
            sessions_view(sessions@),
            token@,
            user_view(*user),
            now,
        ),
{
    let ghost sv = sessions_view(sessions@);
    proof {
        lemma_token_position(sv, token@);
    }
    let mut sessions = sessions;
    let fresh = StoredAuthSession {
        token: token.to_string(),
        handle: user.handle.clone(),
        display_name: clone_opt(&user.display_name),
        avatar_url: clone_opt(&user.avatar_url),
        role: user.role,
        last_used_at: now,
    };
    match find_token(&sessions, token) {
        Some(i) => {
            sessions.set(i, fresh);
            assert(sessions_view(sessions@) =~= sv.update(
                i as int,
                session_view(fresh),
            ));
        },
        None => {
            sessions.push(fresh);
            assert(sessions_view(sessions@) =~= sv.push(session_view(fresh)));
        },
    }
    normalize_auth_sessions(sessions)
}

/// The sessions after the session with `token` was used at time `now`.
pub open spec fn sessions_after_use(s: Seq<SessionView>, token: Seq<char>, now: i64) -> Seq<
    SessionView,
> {
    let p = token_position(s, token);
    normalized_sessions(
        if p >= 0 {
            s.update(p, (s[p].0, s[p].1, s[p].2, s[p].3, s[p].4, now))
        } else {
            s
        },
    )
}

/// The sessions after the session with `token` was used at time `now`.
pub fn mark_auth_session_used(sessions: Vec<StoredAuthSession>, token: &str, now: i64) -> (r: Vec<
    StoredAuthSession,
>)
    ensures
        sessions_view(r@) == sessions_after_use(sessions_view(sessions@), token@, now),
{
    let ghost sv = sessions_view(sessions@);
    proof {
        lemma_token_position(sv, token@);
    }
    let mut sessions = sessions;
    match find_token(&sessions, token) {
        Some(i) => {
            let mut s = sessions.remove(i);
            let ghost old_view = session_view(s);
            assert(old_view == sv[i as int]);
            s.last_used_at = now;
            sessions.insert(i, s);
            assert(sessions_view(sessions@) =~= sv.update(
                i as int,
                (sv[i as int].0, sv[i as int].1, sv[i as int].2, sv[i as int].3, sv[i as int].4, now),
            ));
        },
        None => {},
    }
    normalize_auth_sessions(sessions)
}

/// The sessions after the sessions with `token` were removed.
pub open spec fn sessions_after_removal(s: Seq<SessionView>, token: Seq<char>) -> Seq<SessionView> {
    normalized_sessions(s.filter(not_token(token)))
}

/// Whether a session has a token other than `token`.
pub open spec fn not_token(token: Seq<char>) -> spec_fn(SessionView) -> bool {
    |x: SessionView| x.0 != token
}

/// The sessions after the sessions with `token` were removed.
pub fn remove_auth_session(sessions: Vec<StoredAuthSession>, token: &str) -> (r: Vec<
    StoredAuthSession,
>)
    ensures
        sessions_view(r@) == sessions_after_removal(sessions_view(sessions@), token@),
{
    let ghost sv = sessions_view(sessions@);
    let ghost other = not_token(token@);
    let mut rest = sessions;
    let mut kept: Vec<StoredAuthSession> = Vec::new();
    let ghost mut i: int = 0;
    assert(sv.take(0) =~= Seq::<SessionView>::empty());
    assert(sv.take(0).filter(other) =~= Seq::<SessionView>::empty());
    assert(sessions_view(kept@) =~= sv.take(0).filter(other));
    assert(sessions_view(rest@) =~= sv.skip(0));
    while rest.len() > 0
        invariant
            0 <= i <= sv.len(),
            sessions_view(rest@) == sv.skip(i),
            other == not_token(token@),
            sessions_view(kept@) == sv.take(i).filter(other),
        decreases rest.len(),
    {
        let ghost before_rest = sessions_view(rest@);
        let ghost before_kept = sessions_view(kept@);
        assert(before_rest.len() == rest.len());
        assert(sv.skip(i)[0] == sv[i]);
        let s = rest.remove(0);
        let ghost x = session_view(s);
        assert(before_rest[0] == x);
        assert(x == sv[i]);
        assert(sv.take(i + 1) =~= sv.take(i).push(x));
        proof {
            sv.take(i).lemma_filter_push(x, other);
        }
        if !str_eq(s.token.as_str(), token) {
            kept.push(s);
            assert(sessions_view(kept@) =~= before_kept.push(x));
        }
        assert(sessions_view(rest@) =~= before_rest.drop_first());
        proof {
            i = i + 1;
        }
        assert(sv.skip(i) =~= sv.skip(i - 1).drop_first());
    }
    assert(sv.skip(i).len() == 0);
    assert(sv.take(i) =~= sv);
    normalize_auth_sessions(kept)
}

// ---------------------------------------------------------------------------
// The sign-in state after a login redirect
// ---------------------------------------------------------------------------

/// What the page does on load with the sign-in results a login left in the address:
/// the token and notice it starts with, the token it stores (the last one found), and
/// whether it clears the fragment and the query string.
#[derive(Debug, Clone)]
pub struct InitialAuthPlan {
    pub token: String,
    pub notice: String,
    pub store_token: Option<String>,
    pub clear_hash: bool,
    pub clear_query: bool,
}

/// The value of `key` among the parameters of a fragment or query string.
pub open spec fn address_param(address: Seq<char>, key: Seq<char>) -> Option<Seq<char>> {
    last_value(hash_segments(address), key)
}

/// The sign-in state on load: the stored token, replaced by an `auth_token` in the
/// fragment and then by one in the query string; the notice is an `auth_error` (a token
/// found later clears an earlier notice). A non-empty fragment is cleared; the query
/// string is cleared when it carried either parameter.
pub open spec fn initial_auth(stored_token: Seq<char>, hash: Seq<char>, query: Seq<char>) -> (
    Seq<char>,
    Seq<char>,
    Option<Seq<char>>,
    bool,
    bool,
) {
    let h_token = if hash.len() > 0 {
        address_param(hash, "auth_token"@)
    } else {
        None
    };
    let h_error = if hash.len() > 0 {
        address_param(hash, "auth_error"@)
    } else {
        None
    };
    let q_token = if query.len() > 0 {
        address_param(query, "auth_token"@)
    } else {
        None
    };
    let q_error = if query.len() > 0 {
        address_param(query, "auth_error"@)
    } else {
        None
    };
    let token = match q_token {
        Some(t) => t,
        None => match h_token {
            Some(t) => t,
            None => stored_token,
        },
    };
    let notice = match q_error {
        Some(e) => e,
        None => if q_token is Some {
            Seq::empty()
        } else {
            match h_error {
                Some(e) => e,
                None => Seq::empty(),
            }
        },
    };
    let stored = match q_token {
        Some(t) => Some(t),
        None => h_token,
    };
    (token, notice, stored, hash.len() > 0, q_token is Some || q_error is Some)
}

/// What the page does on load, given the stored token and the address's fragment and
/// query string.
pub fn initial_auth_plan(stored_token: &str, hash: &str, query: &str) -> (r: InitialAuthPlan)
    ensures
        (r.token@, r.notice@, opt_view(r.store_token), r.clear_hash, r.clear_query)
            == initial_auth(stored_token@, hash@, query@),
{
    let mut token = stored_token.to_string();
    let mut notice = String::new();
    let mut store_token: Option<String> = None;
    let mut clear_hash = false;
    let mut clear_query = false;
    if !hash.is_empty() {
        let params = parse_hash_params(hash);
        match param_value(&params, "auth_token") {
            Some(v) => {
                token = v.clone();
                store_token = Some(v);
                notice = String::new();
            },
            None => {},
        }
        match param_value(&params, "auth_error") {
            Some(v) => {
                notice = v;
            },
            None => {},
        }
        clear_hash = true;
    }
    if !query.is_empty() {
        let params = parse_hash_params(query);
        match param_value(&params, "auth_token") {
            Some(v) => {
                token = v.clone();
                store_token = Some(v);
                notice = String::new();
                clear_query = true;
            },
            None => {},
        }
        match param_value(&params, "auth_error") {
            Some(v) => {
                notice = v;
                clear_query = true;
            },
            None => {},
        }
    }
    InitialAuthPlan { token, notice, store_token, clear_hash, clear_query }
}


/// Signing in keeps the session: after signing in with a usable token as a user with a
/// usable handle, the sessions hold exactly one session with that token, carrying the
/// user's details and the sign-in time.
pub proof fn law_sign_in_keeps_session(
    s: Seq<SessionView>,
    token: Seq<char>,
    user: (Seq<char>, Option<Seq<char>>, Option<Seq<char>>, UserRole),
    now: i64,
)
    requires
        usable((token, user.0, user.1, user.2, user.3, now)),
    ensures
        sessions_after_sign_in(s, token, user, now).contains(
            (token, user.0, user.1, user.2, user.3, now),
        ),
{
    broadcast use vstd::seq_lib::group_to_multiset_ensures;

    let fresh = (token, user.0, user.1, user.2, user.3, now);
    let p = token_position(s, token);
    let u = if p >= 0 {
        s.update(p, fresh)
    } else {
        s.push(fresh)
    };
    let k = if p >= 0 {
        p
    } else {
        s.len() as int
    };
    lemma_token_position(s, token);
    assert(u[k] == fresh);
    u.lemma_filter_contains(|x: SessionView| usable(x), k);
    law_sessions_most_recent_first(u);
    let f = u.filter(|x: SessionView| usable(x));
    assert(f.to_multiset().count(fresh) > 0);
    assert(normalized_sessions(u).to_multiset().count(fresh) > 0);
}

/// Signing out forgets the session: after the sessions with a token are removed, no
/// session has it, and every other usable session is kept.
pub proof fn law_removed_session_is_gone(s: Seq<SessionView>, token: Seq<char>)
    ensures
        forall|i: int|
            0 <= i < sessions_after_removal(s, token).len() ==> (#[trigger] sessions_after_removal(
                s,
                token,
            )[i]).0 != token,
        forall|x: SessionView|
            s.contains(x) && x.0 != token && usable(x) ==> #[trigger] sessions_after_removal(
                s,
                token,
            ).contains(x),
{
    broadcast use vstd::seq_lib::group_to_multiset_ensures;

    let t = s.filter(not_token(token));
    law_sessions_most_recent_first(t);
    let r = sessions_after_removal(s, token);
    assert(r == normalized_sessions(t));
    let f = t.filter(|x: SessionView| usable(x));
    assert(r.to_multiset() == f.to_multiset());
    assert forall|i: int| 0 <= i < r.len() implies (#[trigger] r[i]).0 != token by {
        assert(r.to_multiset().count(r[i]) > 0);
        assert(f.to_multiset().count(r[i]) > 0);
        assert(f.contains(r[i]));
        t.lemma_filter_contains_rev(|x: SessionView| usable(x), r[i]);
        let j = choose|j: int| 0 <= j < t.len() && t[j] == r[i];
        assert(t[j].0 != token);
    }
    assert forall|x: SessionView| s.contains(x) && x.0 != token && usable(x) implies #[trigger] r.contains(x) by {
        let j = choose|j: int| 0 <= j < s.len() && s[j] == x;
        s.lemma_filter_contains(not_token(token), j);
        let m = choose|m: int| 0 <= m < t.len() && t[m] == x;
        t.lemma_filter_contains(|y: SessionView| usable(y), m);
        assert(f.to_multiset().count(x) > 0);
        assert(r.to_multiset().count(x) > 0);
    }
}

} // verus!
