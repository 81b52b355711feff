//! The decisions of the web client's frame: the language in the address, switching it,
//! what the sign-in check shows, and what it does to the saved sessions.
use vstd::prelude::*;

use crate::json::str_eq;
use crate::model::UserRole;
use crate::text::{
    chars_of, concat, has_prefix, slice_vec, split, starts_with, string_of, strip_prefix, strs_of,
    trim, trim_vec,
};

verus! {

/// The second piece of a path split at `/` (the first segment of an absolute path), or
/// nothing.
pub open spec fn first_segment(path: Seq<char>) -> Seq<char> {
    let pieces = split(path, '/');
    if pieces.len() > 1 {
        pieces[1]
    } else {
        Seq::empty()
    }
}

/// The language an address starts with, if it is one the client speaks.
pub fn path_language(path: &str) -> (r: Option<String>)
    ensures
        match r {
            Some(l) => (first_segment(path@) == "en"@ || first_segment(path@) == "zh"@) && l@
                == first_segment(path@),
            None => !(first_segment(path@) == "en"@ || first_segment(path@) == "zh"@),
        },
{
    let pieces = crate::text::split_vec(&chars_of(path), '/');
    let seg = if pieces.len() > 1 {
        string_of(&pieces[1])
    } else {
        String::new()
    };
    assert(seg@ == first_segment(path@));
    if str_eq(seg.as_str(), "en") || str_eq(seg.as_str(), "zh") {
        Some(seg)
    } else {
        None
    }
}

/// The address after switching to `new_lang`: the path's `/en` or `/zh` start replaced,
/// or the language put before a path without one.
pub open spec fn switched_path(path: Seq<char>, new_lang: Seq<char>) -> Seq<char> {
    match strip_prefix(path, "/en"@) {
        Some(rest) => "/"@ + new_lang + rest,
        None => match strip_prefix(path, "/zh"@) {
            Some(rest) => "/"@ + new_lang + rest,
            None => "/"@ + new_lang + path,
        },
    }
}

/// The address after switching the language.
pub fn language_switch_path(path: &str, new_lang: &str) -> (r: String)
    ensures
        r@ == switched_path(path@, new_lang@),
{
    let v = chars_of(path);
    let lead = concat(&chars_of("/"), &chars_of(new_lang));
    let en = chars_of("/en");
    let zh = chars_of("/zh");
    proof {
        reveal_strlit("/en");
        reveal_strlit("/zh");
    }
    if starts_with(&v, &en) {
        string_of(&concat(&lead, &slice_vec(&v, 3, v.len())))
    } else if starts_with(&v, &zh) {
        string_of(&concat(&lead, &slice_vec(&v, 3, v.len())))
    } else {
        string_of(&concat(&lead, &v))
    }
}

/// What the frame shows about the signed-in user.
#[derive(Debug, Clone, Copy, PartialEq, Eq, Structural)]
pub enum AuthView {
    /// The check is still running.
    Loading,
    /// Nobody is signed in (or the token was refused).
    Anonymous,
    /// A user is signed in.
    SignedIn,
    /// The check failed otherwise.
    Failed,
}

/// What the sign-in check leads to for the saved sessions.
#[derive(Debug, Clone, Copy, PartialEq, Eq, Structural)]
pub enum SessionEffect {
    /// Nothing changes.
    Keep,
    /// The session is saved with the user's details.
    Remember,
    /// The token was refused: its session is removed and the token forgotten.
    Forget,
}

/// Whether an error message reports a refused token.
pub open spec fn refused(error: Seq<char>) -> bool {
    has_prefix(error, "401"@)
}

/// What the frame shows, given the sign-in check: not finished (`None`), answered with
/// or without a user (`Ok`), or failed with a message.
pub fn auth_view(check: Option<Result<bool, &str>>) -> (r: AuthView)
    ensures
        r == match check {
            None => AuthView::Loading,
            Some(Ok(has_user)) => if has_user {
                AuthView::SignedIn
            } else {
                AuthView::Anonymous
            },
            Some(Err(e)) => if refused(e@) {
                AuthView::Anonymous
            } else {
                AuthView::Failed
            },
        },
{
    match check {
        None => AuthView::Loading,
        Some(Ok(has_user)) => if has_user {
            AuthView::SignedIn
        } else {
            AuthView::Anonymous
        },
        Some(Err(e)) => if starts_with(&chars_of(e), &chars_of("401")) {
            AuthView::Anonymous
        } else {
            AuthView::Failed
        },
    }
}

/// What the sign-in check does to the saved sessions for the current token.
pub fn session_effect(token: &str, check: Option<Result<bool, &str>>) -> (r: SessionEffect)
    ensures
        r == if trim(token@).len() == 0 {
            SessionEffect::Keep
        } else {
            match check {
                Some(Ok(has_user)) => if has_user {
                    SessionEffect::Remember
                } else {
                    SessionEffect::Keep
                },
                Some(Err(e)) => if refused(e@) {
                    SessionEffect::Forget
                } else {
                    SessionEffect::Keep
                },
                None => SessionEffect::Keep,
            }
        },
{
    if trim_vec(&chars_of(token)).len() == 0 {
        return SessionEffect::Keep;
    }
    match check {
        Some(Ok(has_user)) => if has_user {
            SessionEffect::Remember
        } else {
            SessionEffect::Keep
        },
        Some(Err(e)) => if starts_with(&chars_of(e), &chars_of("401")) {
            SessionEffect::Forget
        } else {
            SessionEffect::Keep
        },
        None => SessionEffect::Keep,
    }
}

/// The name an account is shown by: its display name, else `@` and its handle.
pub fn account_label(handle: &str, display_name: Option<&str>) -> (r: String)
    ensures
        r@ == match display_name {
            Some(d) => d@,
            None => "@"@ + handle@,
        },
{
    match display_name {
        Some(d) => d.to_string(),
        None => string_of(&concat(&chars_of("@"), &chars_of(handle))),
    }
}

/// Whether another saved account than the current one can be switched to.
pub fn has_other_accounts(tokens: &Vec<String>, current: &str) -> (r: bool)
    ensures
        r == exists|i: int| 0 <= i < tokens.len() && strs_of(tokens@)[i] != current@,
{
    let mut i: usize = 0;
    while i < tokens.len()
        invariant
            i <= tokens.len(),
            forall|k: int| 0 <= k < i ==> strs_of(tokens@)[k] == current@,
        decreases tokens.len() - i,
    {
        if !str_eq(tokens[i].as_str(), current) {
            assert(strs_of(tokens@)[i as int] != current@);
            return true;
        }
        i += 1;
    }
    false
}

/// Whether the frame shows the administration links (overview, users, index rules): only
/// to a signed-in administrator who has turned administration mode on. `role` is the
/// signed-in user's role, `None` while nobody is signed in.
pub fn shows_admin_links(role: Option<UserRole>, admin_mode: bool) -> (r: bool)
    ensures
        r == (role == Some(UserRole::Admin) && admin_mode),
{
    match role {
        Some(UserRole::Admin) => admin_mode,
        _ => false,
    }
}

/// The class of the administration-mode toggle in the frame: the toggle is shown only to
/// a signed-in administrator (`None` otherwise), marked active while the mode is on.
pub fn admin_toggle_class(role: Option<UserRole>, admin_mode: bool) -> (r: Option<&'static str>)
    ensures
        r is Some <==> role == Some(UserRole::Admin),
        r matches Some(c) ==> c@ == (if admin_mode {
            "admin-toggle active"@
        } else {
            "admin-toggle"@
        }),
{
    match role {
        Some(UserRole::Admin) => {
            if admin_mode {
                Some("admin-toggle active")
            } else {
                Some("admin-toggle")
            }
        },
        _ => None,
    }
}

/// Pressing the administration-mode toggle: the mode turns over, and the text saved for
/// it is `"true"` or `"false"`.
pub fn toggled_admin_mode(admin_mode: bool) -> (r: (bool, &'static str))
    ensures
        r.0 == !admin_mode,
        r.1@ == (if r.0 {
            "true"@
        } else {
            "false"@
        }),
{
    if admin_mode {
        (false, "false")
    } else {
        (true, "true")
    }
}

/// The administration mode at start: on only when the saved text is `"true"`.
pub fn saved_admin_mode(saved: Option<&str>) -> (r: bool)
    ensures
        r == (saved matches Some(t) && t@ == "true"@),
{
    match saved {
        Some(t) => str_eq(t, "true"),
        None => false,
    }
}

} // verus!
