//! Signing in with GitHub: the cookies that carry the login state, the checks on where a
//! login may return to, and the redirects that end it.
use vstd::prelude::*;

use crate::encoding::{hex_bytes, hex_pairs, hex_string, hex_text, string_from_utf8};
use crate::error::{error_view, AppError, ErrorKind};
use crate::git_ops::first_match;
use crate::json::str_eq;
use crate::text::{
    chars_eq, chars_of, concat, find_char_at, first_index, i64_to_decimal, is_ws, signed_decimal,
    slice_vec, split, split_once, split_vec, string_of, strs_of, trim, trim_vec,
};

verus! {

broadcast use vstd::string::group_string_axioms;

// ---------------------------------------------------------------------------
// Hexadecimal cookie values
// ---------------------------------------------------------------------------

/// The hexadecimal text of a string's UTF-8 bytes.
pub fn hex_encode(value: &str) -> (r: String)
    ensures
        r@ == hex_text(vstd::utf8::encode_utf8(value@)),
{
    hex_string(value.as_bytes())
}

/// The string hexadecimal text spells: `None` when the text has an odd number of bytes,
/// holds a pair that is not two hexadecimal digits, or spells bytes that are not UTF-8.
pub open spec fn hex_decoded(value: Seq<char>) -> Option<Seq<char>> {
    if (vstd::utf8::encode_utf8(value).len() as usize) % 2 != 0 {
        None
    } else {
        match hex_bytes(value) {
            Some(b) => if vstd::utf8::valid_utf8(b) {
                Some(vstd::utf8::decode_utf8(b))
            } else {
                None
            },
            None => None,
        }
    }
}

/// The string that hexadecimal text spells.
pub fn hex_decode(value: &str) -> (r: Option<String>)
    ensures
        match r {
            Some(s) => hex_decoded(value@) == Some(s@),
            None => hex_decoded(value@) is None,
        },
{
    if value.len() % 2 != 0 {
        return None;
    }
    match hex_pairs(&chars_of(value)) {
        Some(bytes) => string_from_utf8(bytes),
        None => None,
    }
}

proof fn lemma_hex_text_ascii(bytes: Seq<u8>)
    ensures
        vstd::utf8::is_ascii_chars(hex_text(bytes)),
        hex_text(bytes).len() == 2 * bytes.len(),
        hex_bytes(hex_text(bytes)) == Some(bytes),
    decreases bytes.len(),
{
    if bytes.len() > 0 {
        lemma_hex_text_ascii(bytes.drop_first());
        let t = hex_text(bytes);
        let rest = hex_text(bytes.drop_first());
        let h = bytes[0] as int / 16;
        let l = bytes[0] as int % 16;
        assert(t.subrange(2, t.len() as int) =~= rest);
        assert(t[0] == crate::encoding::hex_digit(h));
        assert(t[1] == crate::encoding::hex_digit(l));
        assert((h * 16 + l) as u8 == bytes[0]);
        assert(seq![bytes[0]] + bytes.drop_first() =~= bytes);
        assert forall|i: int| 0 <= i < t.len() implies '\0' <= #[trigger] t[i] <= '\u{7f}' by {
            if i >= 2 {
                assert(t[i] == rest[i - 2]);
            }
        }
    } else {
        assert(hex_text(bytes) =~= Seq::<char>::empty());
        assert(bytes =~= Seq::<u8>::empty());
    }
}

/// Decoding the hexadecimal text of a string gives the string back (for any string whose
/// hexadecimal text fits in memory).
pub proof fn law_hex_round_trip(s: Seq<char>)
    requires
        2 * vstd::utf8::encode_utf8(s).len() <= usize::MAX,
    ensures
        hex_decoded(hex_text(vstd::utf8::encode_utf8(s))) == Some(s),
{
    let bytes = vstd::utf8::encode_utf8(s);
    lemma_hex_text_ascii(bytes);
    vstd::utf8::is_ascii_chars_encode_utf8(hex_text(bytes));
    vstd::utf8::encode_utf8_valid_utf8(s);
    vstd::utf8::encode_utf8_decode_utf8(s);
}

// ---------------------------------------------------------------------------
// Cookies
// ---------------------------------------------------------------------------

/// The cookie that holds the state of a GitHub login.
pub open spec fn state_cookie() -> Seq<char> {
    "savhub_github_state"@
}

/// The cookie that holds where a GitHub login returns to, in hexadecimal.
pub open spec fn return_to_cookie() -> Seq<char> {
    "savhub_github_return_to"@
}

/// The value of one `name=value` piece of a `Cookie` header, when its name is `name`.
pub open spec fn cookie_piece_value(piece: Seq<char>, name: Seq<char>) -> Option<Seq<char>> {
    match split_once(trim(piece), '=') {
        Some(parts) => if parts.0 == name {
            Some(parts.1)
        } else {
            None
        },
        None => None,
    }
}

/// The value of the first cookie named `name` in a `Cookie` header.
pub open spec fn cookie_in(header: Option<Seq<char>>, name: Seq<char>) -> Option<Seq<char>> {
    match header {
        Some(h) => first_match(split(h, ';'), |piece: Seq<char>| cookie_piece_value(piece, name)),
        None => None,
    }
}

/// The view of an optional string.
pub open spec fn opt_str(v: Option<&str>) -> Option<Seq<char>> {
    match v {
        Some(s) => Some(s@),
        None => None,
    }
}

fn piece_value(piece: &Vec<char>, name: &str) -> (r: Option<String>)
    ensures
        match r {
            Some(v) => cookie_piece_value(piece@, name@) == Some(v@),
            None => cookie_piece_value(piece@, name@) is None,
        },
{
    let t = trim_vec(piece);
    let n = t.len();
    assert(t@.subrange(0, n as int) =~= t@);
    match find_char_at(&t, 0, n, '=') {
        Some(k) => {
            if chars_eq(&slice_vec(&t, 0, k), &chars_of(name)) {
                Some(string_of(&slice_vec(&t, k + 1, n)))
            } else {
                None
            }
        },
        None => None,
    }
}

/// The value of the cookie `name` in a `Cookie` header.
pub fn cookie_value(cookie_header: Option<&str>, name: &str) -> (r: Option<String>)
    ensures
        match r {
            Some(v) => cookie_in(opt_str(cookie_header), name@) == Some(v@),
            None => cookie_in(opt_str(cookie_header), name@) is None,
        },
{
    let header = match cookie_header {
        Some(h) => h,
        None => {
            return None;
        },
    };
    let pieces = split_vec(&chars_of(header), ';');
    let ghost all = split(header@, ';');
    let ghost f = |piece: Seq<char>| cookie_piece_value(piece, name@);
    let mut i: usize = 0;
    assert(all.skip(0) =~= all);
    while i < pieces.len()
        invariant
            i <= pieces.len(),
            crate::text::seqs_of(pieces@) == all,
            all == split(header@, ';'),
            opt_str(cookie_header) == Some(header@),
            f == (|piece: Seq<char>| cookie_piece_value(piece, name@)),
            first_match(all, f) == first_match(all.skip(i as int), f),
        decreases pieces.len() - i,
    {
        proof {
            crate::git_ops::lemma_first_match_step(all, i as int, f);
        }
        assert(all[i as int] == pieces@[i as int]@);
        match piece_value(&pieces[i], name) {
            Some(v) => {
                return Some(v);
            },
            None => {},
        }
        i += 1;
    }
    assert(all.skip(pieces.len() as int) =~= Seq::<Seq<char>>::empty());
    None
}

/// The `Set-Cookie` value that sets the cookie `name` for `max_age_secs` seconds.
pub open spec fn cookie_text(name: Seq<char>, value: Seq<char>, max_age_secs: int) -> Seq<char> {
    name + "="@ + value + "; Path=/; HttpOnly; SameSite=Lax; Max-Age="@ + signed_decimal(
        max_age_secs,
    )
}

/// The `Set-Cookie` value for a login cookie.
pub fn build_cookie(name: &str, value: &str, max_age_secs: i64) -> (r: String)
    ensures
        r@ == cookie_text(name@, value@, max_age_secs as int),
{
    let a = concat(&chars_of(name), &chars_of("="));
    let b = concat(&a, &chars_of(value));
    let c = concat(&b, &chars_of("; Path=/; HttpOnly; SameSite=Lax; Max-Age="));
    let age = i64_to_decimal(max_age_secs);
    string_of(&concat(&c, &chars_of(age.as_str())))
}

/// The `Set-Cookie` values that clear both login cookies.
pub fn clear_auth_cookies() -> (r: Vec<String>)
    ensures
        strs_of(r@) == seq![
            cookie_text(state_cookie(), Seq::empty(), 0),
            cookie_text(return_to_cookie(), Seq::empty(), 0),
        ],
{
    let empty = String::new();
    let r = vec![
        build_cookie("savhub_github_state", empty.as_str(), 0),
        build_cookie("savhub_github_return_to", empty.as_str(), 0),
    ];
    assert(strs_of(r@) =~= seq![
        cookie_text(state_cookie(), Seq::empty(), 0),
        cookie_text(return_to_cookie(), Seq::empty(), 0),
    ]);
    r
}

// ---------------------------------------------------------------------------
// Roles
// ---------------------------------------------------------------------------

/// The role a GitHub login gets: admin for a configured admin login, moderator for a
/// configured moderator login, else the role the user already has, else user.
pub open spec fn role_for_login(
    github_login: Seq<char>,
    admin_logins: Seq<Seq<char>>,
    moderator_logins: Seq<Seq<char>>,
    existing_role: Option<Seq<char>>,
) -> Seq<char> {
    if admin_logins.contains(github_login) {
        "admin"@
    } else if moderator_logins.contains(github_login) {
        "moderator"@
    } else {
        match existing_role {
            Some(role) => role,
            None => "user"@,
        }
    }
}

fn listed(logins: &Vec<String>, login: &str) -> (r: bool)
    ensures
        r == strs_of(logins@).contains(login@),
{
    let mut i: usize = 0;
    while i < logins.len()
        invariant
            i <= logins.len(),
            forall|k: int| 0 <= k < i ==> strs_of(logins@)[k] != login@,
        decreases logins.len() - i,
    {
        if str_eq(logins[i].as_str(), login) {
            assert(strs_of(logins@)[i as int] == login@);
            return true;
        }
        i += 1;
    }
    false
}

/// The role a user signing in with `github_login` gets.
pub fn login_role(
    github_login: &str,
    admin_logins: &Vec<String>,
    moderator_logins: &Vec<String>,
    existing_role: Option<&str>,
) -> (r: String)
    ensures
        r@ == role_for_login(
            github_login@,
            strs_of(admin_logins@),
            strs_of(moderator_logins@),
            opt_str(existing_role),
        ),
{
    if listed(admin_logins, github_login) {
        return "admin".to_string();
    }
    if listed(moderator_logins, github_login) {
        return "moderator".to_string();
    }
    match existing_role {
        Some(role) => role.to_string(),
        None => "user".to_string(),
    }
}

// ---------------------------------------------------------------------------
// URLs
// ---------------------------------------------------------------------------

/// `reqwest::Url`, carried through as an opaque value.
#[verifier::external_type_specification]
#[verifier::external_body]
pub struct ExUrl(reqwest::Url);

/// A parsed absolute URL with the parts the login checks read.
#[derive(Debug)]
pub struct UrlParts {
    url: reqwest::Url,
    scheme: String,
    host: Option<String>,
    port: Option<u16>,
    href: String,
}

/// A parsed URL as its scheme, host, port (the scheme's known default when none is
/// written) and serialization.
pub type UrlView = (Seq<char>, Option<Seq<char>>, Option<u16>, Seq<char>);

/// The view of an optional string.
pub open spec fn opt_string(v: Option<String>) -> Option<Seq<char>> {
    match v {
        Some(s) => Some(s@),
        None => None,
    }
}

impl View for UrlParts {
    type V = UrlView;

    closed spec fn view(&self) -> UrlView {
        (self.scheme@, opt_string(self.host), self.port, self.href@)
    }
}

impl UrlParts {
    /// The serialization of the URL.
    pub fn as_str(&self) -> (r: &str)
        ensures
            r@ == self@.3,
    {
        self.href.as_str()
    }

    /// The scheme of the URL.
    pub fn scheme(&self) -> (r: &str)
        ensures
            r@ == self@.0,
    {
        self.scheme.as_str()
    }
}

/// What `Url::parse` makes of a text: the URL's scheme, host, port (the scheme's known
/// default when none is written) and serialization, or the message of the parse error.
pub uninterp spec fn parsed_url(text: Seq<char>) -> Result<UrlView, Seq<char>>;

/// `Url::parse`, with `scheme`, `host_str`, `port_or_known_default` and `as_str` of the
/// result. Trusted: the outcome is named by `parsed_url`; the static fallback address
/// `http://127.0.0.1:8081` parses.
#[verifier::external_body]
pub(crate) fn parse_url(text: &str) -> (r: Result<UrlParts, String>)
    ensures
        match r {
            Ok(u) => parsed_url(text@) == Ok::<UrlView, Seq<char>>(u@),
            Err(e) => parsed_url(text@) == Err::<UrlView, Seq<char>>(e@),
        },
        text@ == "http://127.0.0.1:8081"@ ==> r is Ok,
{
    match reqwest::Url::parse(text) {
        Ok(url) => Ok(
            UrlParts {
                scheme: url.scheme().to_string(),
                host: url.host_str().map(str::to_string),
                port: url.port_or_known_default(),
                href: url.as_str().to_string(),
                url,
            },
        ),
        Err(error) => Err(error.to_string()),
    }
}

/// The serialization of the URL `href` after `query_pairs_mut().append_pair(key, value)`.
pub uninterp spec fn query_pair_appended(href: Seq<char>, key: Seq<char>, value: Seq<char>) -> Seq<
    char,
>;

/// `Url::query_pairs_mut().append_pair` on a copy of the URL. Trusted: the new
/// serialization is named by `query_pair_appended` (a `Url` is determined by its
/// serialization); scheme, host and port stay.
#[verifier::external_body]
pub(crate) fn append_query_pair(url: &UrlParts, key: &str, value: &str) -> (r: UrlParts)
    ensures
        r@.3 == query_pair_appended(url@.3, key@, value@),
        r@.0 == url@.0,
        r@.1 == url@.1,
        r@.2 == url@.2,
{
    let mut next = url.url.clone();
    next.query_pairs_mut().append_pair(key, value);
    UrlParts {
        scheme: url.scheme.clone(),
        host: url.host.clone(),
        port: url.port,
        href: next.as_str().to_string(),
        url: next,
    }
}

/// The serialization of the URL `href` after `set_fragment(Some(fragment))`.
pub uninterp spec fn fragment_set(href: Seq<char>, fragment: Seq<char>) -> Seq<char>;

/// `Url::set_fragment(Some(fragment))` on a copy of the URL. Trusted: the new
/// serialization is named by `fragment_set`.
#[verifier::external_body]
fn with_fragment(url: &UrlParts, fragment: &str) -> (r: String)
    ensures
        r@ == fragment_set(url@.3, fragment@),
{
    let mut next = url.url.clone();
    next.set_fragment(Some(fragment));
    next.as_str().to_string()
}

/// Whether a URL is an `http` or `https` address on this machine.
pub open spec fn is_loopback(u: UrlView) -> bool {
    (u.0 == "http"@ || u.0 == "https"@) && (u.1 == Some("127.0.0.1"@) || u.1 == Some(
        "localhost"@,
    ) || u.1 == Some("::1"@))
}

/// Whether two URLs share scheme, host and port.
pub open spec fn same_origin_as(a: UrlView, b: UrlView) -> bool {
    a.0 == b.0 && a.1 == b.1 && a.2 == b.2
}

fn opt_str_eq(a: &Option<String>, b: &str) -> (r: bool)
    ensures
        r == (opt_string(*a) == Some(b@)),
{
    match a {
        Some(s) => str_eq(s.as_str(), b),
        None => false,
    }
}

fn opt_strings_eq(a: &Option<String>, b: &Option<String>) -> (r: bool)
    ensures
        r == (opt_string(*a) == opt_string(*b)),
{
    match (a, b) {
        (Some(x), Some(y)) => str_eq(x.as_str(), y.as_str()),
        (None, None) => true,
        _ => false,
    }
}

/// Whether `url` is an `http` or `https` address on this machine.
pub fn is_loopback_url(url: &UrlParts) -> (r: bool)
    ensures
        r == is_loopback(url@),
{
    (str_eq(url.scheme.as_str(), "http") || str_eq(url.scheme.as_str(), "https")) && (opt_str_eq(
        &url.host,
        "127.0.0.1",
    ) || opt_str_eq(&url.host, "localhost") || opt_str_eq(&url.host, "::1"))
}

/// Whether two URLs have the same origin.
pub fn same_origin(left: &UrlParts, right: &UrlParts) -> (r: bool)
    ensures
        r == same_origin_as(left@, right@),
{
    str_eq(left.scheme.as_str(), right.scheme.as_str()) && opt_strings_eq(&left.host, &right.host)
        && left.port == right.port
}

/// Where a login may return to: an absolute URL on the frontend's origin or on this
/// machine; else why not.
pub open spec fn return_to_check(value: Seq<char>, frontend_origin: Seq<char>) -> Result<
    UrlView,
    (ErrorKind, Seq<char>),
> {
    match parsed_url(value) {
        Err(_) => Err((ErrorKind::BadRequest, "return_to must be an absolute URL"@)),
        Ok(rt) => match parsed_url(frontend_origin) {
            Err(e) => Err((ErrorKind::Internal, "invalid SAVHUB_FRONTEND_ORIGIN: "@ + e)),
            Ok(fo) => if same_origin_as(rt, fo) || is_loopback(rt) {
                Ok(rt)
            } else {
                Err(
                    (
                        ErrorKind::Forbidden,
                        "return_to must point to the configured frontend or a loopback address"@,
                    ),
                )
            },
        },
    }
}

/// The view of an outcome that gives a URL.
pub open spec fn url_outcome(r: Result<UrlParts, AppError>) -> Result<
    UrlView,
    (ErrorKind, Seq<char>),
> {
    match r {
        Ok(u) => Ok(u@),
        Err(e) => Err(error_view(e)),
    }
}

fn joined(a: &str, b: &str) -> (r: String)
    ensures
        r@ == a@ + b@,
{
    string_of(&concat(&chars_of(a), &chars_of(b)))
}

/// The URL a login may return to, checked against the frontend's origin.
pub fn validate_return_to(value: &str, frontend_origin: &str) -> (r: Result<UrlParts, AppError>)
    ensures
        url_outcome(r) == return_to_check(value@, frontend_origin@),
{
    let return_to = match parse_url(value) {
        Ok(u) => u,
        Err(_) => {
            return Err(AppError::BadRequest("return_to must be an absolute URL".to_string()));
        },
    };
    let frontend = match parse_url(frontend_origin) {
        Ok(u) => u,
        Err(e) => {
            return Err(AppError::Internal(joined("invalid SAVHUB_FRONTEND_ORIGIN: ", e.as_str())));
        },
    };
    if same_origin(&return_to, &frontend) || is_loopback_url(&return_to) {
        return Ok(return_to);
    }
    Err(
        AppError::Forbidden(
            "return_to must point to the configured frontend or a loopback address".to_string(),
        ),
    )
}

/// Where the login whose cookies are `cookie_header` returns to.
pub open spec fn stored_return_to(cookie_header: Option<Seq<char>>, frontend_origin: Seq<char>) -> Result<
    UrlView,
    (ErrorKind, Seq<char>),
> {
    match cookie_in(cookie_header, return_to_cookie()) {
        None => Err((ErrorKind::Unauthorized, "missing GitHub login redirect target"@)),
        Some(value) => match hex_decoded(value) {
            None => Err((ErrorKind::Unauthorized, "invalid GitHub login redirect target"@)),
            Some(decoded) => return_to_check(decoded, frontend_origin),
        },
    }
}

/// Where the login whose cookies are `cookie_header` returns to, checked again.
pub fn load_return_to(cookie_header: Option<&str>, frontend_origin: &str) -> (r: Result<
    UrlParts,
    AppError,
>)
    ensures
        url_outcome(r) == stored_return_to(opt_str(cookie_header), frontend_origin@),
{
    let value = match cookie_value(cookie_header, "savhub_github_return_to") {
        Some(v) => v,
        None => {
            return Err(
                AppError::Unauthorized("missing GitHub login redirect target".to_string()),
            );
        },
    };
    let decoded = match hex_decode(value.as_str()) {
        Some(d) => d,
        None => {
            return Err(
                AppError::Unauthorized("invalid GitHub login redirect target".to_string()),
            );
        },
    };
    validate_return_to(decoded.as_str(), frontend_origin)
}

/// Where a login ends: the return URL with `key=value` added to its query when it is on
/// this machine, else put in its fragment.
pub open spec fn redirect_target(return_to: UrlView, key: Seq<char>, value: Seq<char>) -> Seq<
    char,
> {
    if is_loopback(return_to) {
        query_pair_appended(return_to.3, key, value)
    } else {
        fragment_set(return_to.3, key + "="@ + value)
    }
}

/// The URL a login ends at, carrying `key=value`.
pub fn build_redirect(return_to: &UrlParts, key: &str, value: &str) -> (r: Result<
    String,
    AppError,
>)
    ensures
        r matches Ok(s) && s@ == redirect_target(return_to@, key@, value@),
{
    if is_loopback_url(return_to) {
        let next = append_query_pair(return_to, key, value);
        Ok(next.href)
    } else {
        let fragment = string_of(&concat(&concat(&chars_of(key), &chars_of("=")), &chars_of(value)));
        Ok(with_fragment(return_to, fragment.as_str()))
    }
}

/// The URL a successful login ends at, carrying the new token.
pub fn build_success_redirect(return_to: &UrlParts, token: &str) -> (r: Result<String, AppError>)
    ensures
        r matches Ok(s) && s@ == redirect_target(return_to@, "auth_token"@, token@),
{
    build_redirect(return_to, "auth_token", token)
}

/// The URL a failed login ends at, carrying the message.
pub fn build_error_redirect(return_to: &UrlParts, message: &str) -> (r: Result<String, AppError>)
    ensures
        r matches Ok(s) && s@ == redirect_target(return_to@, "auth_error"@, message@),
{
    build_redirect(return_to, "auth_error", message)
}

/// The URL a failed login ends at when it has no valid return URL: the frontend (or
/// `http://127.0.0.1:8081` when the frontend's origin does not parse) with the message in
/// its fragment.
pub open spec fn fallback_target(message: Seq<char>, frontend_origin: Seq<char>) -> Seq<char> {
    let base = match parsed_url(frontend_origin) {
        Ok(u) => u,
        Err(_) => parsed_url("http://127.0.0.1:8081"@)->Ok_0,
    };
    fragment_set(base.3, "auth_error="@ + message)
}

/// The URL a failed login ends at when it has no valid return URL.
pub fn fallback_error_redirect(message: &str, frontend_origin: &str) -> (r: String)
    ensures
        r@ == fallback_target(message@, frontend_origin@),
{
    let base = match parse_url(frontend_origin) {
        Ok(u) => u,
        Err(_) => {
            proof {
                reveal_strlit("http://127.0.0.1:8081");
            }
            match parse_url("http://127.0.0.1:8081") {
                Ok(u) => u,
                Err(_) => {
                    proof {
                        assert(false);
                    }
                    return String::new();
                },
            }
        },
    };
    let fragment = joined("auth_error=", message);
    with_fragment(&base, fragment.as_str())
}

/// Where a login goes and which cookies it sets.
#[derive(Debug, Clone)]
pub struct AuthRedirect {
    pub location: String,
    pub set_cookies: Vec<String>,
}

/// Where a failed login goes: its return URL with the message, or the fallback when it
/// has none; the login cookies are cleared.
pub open spec fn error_target(
    cookie_header: Option<Seq<char>>,
    message: Seq<char>,
    frontend_origin: Seq<char>,
) -> Seq<char> {
    match stored_return_to(cookie_header, frontend_origin) {
        Ok(rt) => redirect_target(rt, "auth_error"@, message),
        Err(_) => fallback_target(message, frontend_origin),
    }
}

/// The cookies that end a login.
pub open spec fn cleared_cookies() -> Seq<Seq<char>> {
    seq![cookie_text(state_cookie(), Seq::empty(), 0), cookie_text(return_to_cookie(), Seq::empty(), 0)]
}

/// Where a failed login goes, with the login cookies cleared.
pub fn error_redirect(cookie_header: Option<&str>, message: &str, frontend_origin: &str) -> (r:
    AuthRedirect)
    ensures
        r.location@ == error_target(opt_str(cookie_header), message@, frontend_origin@),
        strs_of(r.set_cookies@) == cleared_cookies(),
{
    let location = match load_return_to(cookie_header, frontend_origin) {
        Ok(return_to) => match build_error_redirect(&return_to, message) {
            Ok(s) => s,
            Err(_) => fallback_error_redirect(message, frontend_origin),
        },
        Err(_) => fallback_error_redirect(message, frontend_origin),
    };
    AuthRedirect { location, set_cookies: clear_auth_cookies() }
}

/// The address GitHub's login starts at.
pub open spec fn authorize_address() -> Seq<char> {
    "https://github.com/login/oauth/authorize"@
}

/// The start of a GitHub login: the authorize URL with the client, redirect, scope and
/// state, and the cookies that keep the state and the return URL (in hexadecimal) for
/// ten minutes.
pub open spec fn login_start(
    return_to: Option<Seq<char>>,
    frontend_origin: Seq<char>,
    client_id: Seq<char>,
    redirect_url: Seq<char>,
    state: Seq<char>,
) -> Result<(Seq<char>, Seq<Seq<char>>), (ErrorKind, Seq<char>)> {
    let wanted = match return_to {
        Some(v) => v,
        None => frontend_origin,
    };
    match return_to_check(wanted, frontend_origin) {
        Err(e) => Err(e),
        Ok(rt) => match parsed_url(authorize_address()) {
            Err(e) => Err((ErrorKind::Internal, "failed to build GitHub authorize URL: "@ + e)),
            Ok(base) => {
                let a = query_pair_appended(base.3, "client_id"@, client_id);
                let b = query_pair_appended(a, "redirect_uri"@, redirect_url);
                let c = query_pair_appended(b, "scope"@, "read:user"@);
                let d = query_pair_appended(c, "state"@, state);
                Ok(
                    (
                        d,
                        seq![
                            cookie_text(state_cookie(), state, 600),
                            cookie_text(
                                return_to_cookie(),
                                hex_text(vstd::utf8::encode_utf8(rt.3)),
                                600,
                            ),
                        ],
                    ),
                )
            },
        },
    }
}

/// The view of the outcome of starting a login.
pub open spec fn redirect_outcome(r: Result<AuthRedirect, AppError>) -> Result<
    (Seq<char>, Seq<Seq<char>>),
    (ErrorKind, Seq<char>),
> {
    match r {
        Ok(a) => Ok((a.location@, strs_of(a.set_cookies@))),
        Err(e) => Err(error_view(e)),
    }
}

/// Starts a GitHub login for the fresh `state`, returning to `return_to` (the frontend
/// when none is given).
pub fn start_login(
    return_to: Option<&str>,
    frontend_origin: &str,
    client_id: &str,
    redirect_url: &str,
    state: &str,
) -> (r: Result<AuthRedirect, AppError>)
    ensures
        redirect_outcome(r) == login_start(
            opt_str(return_to),
            frontend_origin@,
            client_id@,
            redirect_url@,
            state@,
        ),
{
    let wanted = match return_to {
        Some(v) => v,
        None => frontend_origin,
    };
    let rt = match validate_return_to(wanted, frontend_origin) {
        Ok(u) => u,
        Err(e) => {
            return Err(e);
        },
    };
    let base = match parse_url("https://github.com/login/oauth/authorize") {
        Ok(u) => u,
        Err(e) => {
            return Err(
                AppError::Internal(joined("failed to build GitHub authorize URL: ", e.as_str())),
            );
        },
    };
    let a = append_query_pair(&base, "client_id", client_id);
    let b = append_query_pair(&a, "redirect_uri", redirect_url);
    let c = append_query_pair(&b, "scope", "read:user");
    let d = append_query_pair(&c, "state", state);
    let cookies = vec![
        build_cookie("savhub_github_state", state, 600),
        build_cookie("savhub_github_return_to", hex_encode(rt.as_str()).as_str(), 600),
    ];
    let r = AuthRedirect { location: d.href, set_cookies: cookies };
    assert(strs_of(r.set_cookies@) =~= seq![
        cookie_text(state_cookie(), state@, 600),
        cookie_text(return_to_cookie(), hex_text(vstd::utf8::encode_utf8(rt@.3)), 600),
    ]);
    Ok(r)
}

/// The checks on a login's callback: the state GitHub hands back must be the one kept in
/// the state cookie, and the kept return URL must still be valid.
pub open spec fn callback_check(
    state: Seq<char>,
    cookie_header: Option<Seq<char>>,
    frontend_origin: Seq<char>,
) -> Result<UrlView, (ErrorKind, Seq<char>)> {
    match cookie_in(cookie_header, state_cookie()) {
        None => Err((ErrorKind::Unauthorized, "missing GitHub login state"@)),
        Some(expected) => if expected != state {
            Err((ErrorKind::Unauthorized, "GitHub login state did not match"@))
        } else {
            stored_return_to(cookie_header, frontend_origin)
        },
    }
}

/// Checks a login's callback before the code is exchanged: the state must match the
/// state cookie, and the return URL is read back.
pub fn check_login_callback(state: &str, cookie_header: Option<&str>, frontend_origin: &str) -> (r:
    Result<UrlParts, AppError>)
    ensures
        url_outcome(r) == callback_check(state@, opt_str(cookie_header), frontend_origin@),
{
    let expected = match cookie_value(cookie_header, "savhub_github_state") {
        Some(v) => v,
        None => {
            return Err(AppError::Unauthorized("missing GitHub login state".to_string()));
        },
    };
    if !str_eq(expected.as_str(), state) {
        return Err(AppError::Unauthorized("GitHub login state did not match".to_string()));
    }
    load_return_to(cookie_header, frontend_origin)
}

/// Where a successful login goes, carrying the new token, with the login cookies cleared.
pub fn login_success_redirect(return_to: &UrlParts, token: &str) -> (r: Result<
    AuthRedirect,
    AppError,
>)
    ensures
        r matches Ok(a) && a.location@ == redirect_target(return_to@, "auth_token"@, token@)
            && strs_of(a.set_cookies@) == cleared_cookies(),
{
    let location = match build_success_redirect(return_to, token) {
        Ok(s) => s,
        Err(e) => {
            return Err(e);
        },
    };
    Ok(AuthRedirect { location, set_cookies: clear_auth_cookies() })
}

/// What GitHub's answer to a token exchange means: the access token, or why the login
/// failed (its error description, else its error, else the HTTP status).
pub open spec fn access_token_outcome(
    success: bool,
    status: u16,
    access_token: Option<Seq<char>>,
    error: Option<Seq<char>>,
    error_description: Option<Seq<char>>,
) -> Result<Seq<char>, (ErrorKind, Seq<char>)> {
    if !success {
        Err(
            (
                ErrorKind::Unauthorized,
                match error_description {
                    Some(d) => d,
                    None => match error {
                        Some(e) => e,
                        None => "GitHub returned HTTP "@ + crate::text::decimal(status as nat),
                    },
                },
            ),
        )
    } else if error is Some {
        Err(
            (
                ErrorKind::Unauthorized,
                match error_description {
                    Some(d) => d,
                    None => error->0,
                },
            ),
        )
    } else {
        match access_token {
            Some(t) => Ok(t),
            None => Err((ErrorKind::Unauthorized, "GitHub did not return an access token"@)),
        }
    }
}

/// The access token of GitHub's answer to a token exchange, given whether the HTTP
/// status was a success, the status, and the answer's fields.
pub fn access_token_from_response(
    success: bool,
    status: u16,
    access_token: Option<String>,
    error: Option<String>,
    error_description: Option<String>,
) -> (r: Result<String, AppError>)
    ensures
        match r {
            Ok(t) => access_token_outcome(
                success,
                status,
                opt_string(access_token),
                opt_string(error),
                opt_string(error_description),
            ) == Ok::<Seq<char>, (ErrorKind, Seq<char>)>(t@),
            Err(e) => access_token_outcome(
                success,
                status,
                opt_string(access_token),
                opt_string(error),
                opt_string(error_description),
            ) == Err::<Seq<char>, (ErrorKind, Seq<char>)>(error_view(e)),
        },
{
    if !success {
        let detail = match error_description {
            Some(d) => d,
            None => match error {
                Some(e) => e,
                None => joined(
                    "GitHub returned HTTP ",
                    crate::text::u64_to_decimal(status as u64).as_str(),
                ),
            },
        };
        return Err(AppError::Unauthorized(detail));
    }
    if let Some(e) = error {
        let detail = match error_description {
            Some(d) => d,
            None => e,
        };
        return Err(AppError::Unauthorized(detail));
    }
    match access_token {
        Some(t) => Ok(t),
        None => Err(AppError::Unauthorized("GitHub did not return an access token".to_string())),
    }
}

/// The error for a failed GitHub user lookup: the body GitHub sent, or the HTTP status
/// when the body is blank.
pub open spec fn user_lookup_message(status: u16, body: Seq<char>) -> Seq<char> {
    if trim(body).len() == 0 {
        "GitHub user lookup returned HTTP "@ + crate::text::decimal(status as nat)
    } else {
        "GitHub user lookup failed: "@ + body
    }
}

/// The error for a failed GitHub user lookup.
pub fn user_lookup_error(status: u16, body: &str) -> (r: AppError)
    ensures
        error_view(r) == (ErrorKind::Unauthorized, user_lookup_message(status, body@)),
{
    if trim_vec(&chars_of(body)).len() == 0 {
        AppError::Unauthorized(
            joined(
                "GitHub user lookup returned HTTP ",
                crate::text::u64_to_decimal(status as u64).as_str(),
            ),
        )
    } else {
        AppError::Unauthorized(joined("GitHub user lookup failed: ", body))
    }
}

/// The handle tried for a new user: the GitHub login, then the login with `-1`, `-2`, ...
pub open spec fn handle_candidate_text(base: Seq<char>, suffix: nat) -> Seq<char> {
    if suffix == 0 {
        base
    } else {
        base + "-"@ + crate::text::decimal(suffix)
    }
}

/// The handle tried for a new user with the given suffix number.
pub fn handle_candidate(base: &str, suffix: u32) -> (r: String)
    ensures
        r@ == handle_candidate_text(base@, suffix as nat),
{
    if suffix == 0 {
        base.to_string()
    } else {
        let with_dash = joined(base, "-");
        joined(with_dash.as_str(), crate::text::u64_to_decimal(suffix as u64).as_str())
    }
}


// ---------------------------------------------------------------------------
// A login returns where it started
// ---------------------------------------------------------------------------

/// The `name=value` part of a `Set-Cookie` value, which a browser sends back.
pub open spec fn cookie_pair(set_cookie: Seq<char>) -> Seq<char> {
    let i = first_index(set_cookie, ';');
    if i < 0 {
        set_cookie
    } else {
        set_cookie.subrange(0, i)
    }
}

/// The `Cookie` header a browser sends once it has stored the cookies `set_cookies`.
pub open spec fn cookie_header_after(set_cookies: Seq<Seq<char>>) -> Seq<char> {
    crate::text::join(set_cookies.map_values(|c: Seq<char>| cookie_pair(c)), "; "@)
}

/// The URL a login started for `return_to` (the frontend when none is given) goes back to.
pub open spec fn login_return_url(return_to: Option<Seq<char>>, frontend_origin: Seq<char>) -> UrlView {
    let wanted = match return_to {
        Some(v) => v,
        None => frontend_origin,
    };
    match return_to_check(wanted, frontend_origin) {
        Ok(rt) => rt,
        Err(_) => (Seq::empty(), None, None, Seq::empty()),
    }
}

/// Whether a character can appear in hexadecimal text.
pub open spec fn is_hex_char(c: char) -> bool {
    ('0' <= c && c <= '9') || ('a' <= c && c <= 'f')
}

proof fn lemma_hex_text_chars(bytes: Seq<u8>)
    ensures
        forall|k: int| 0 <= k < hex_text(bytes).len() ==> is_hex_char(#[trigger] hex_text(bytes)[k]),
    decreases bytes.len(),
{
    if bytes.len() > 0 {
        lemma_hex_text_chars(bytes.drop_first());
        let hi = bytes[0] as int / 16;
        let lo = bytes[0] as int % 16;
        let h = hex_text(bytes);
        let t = hex_text(bytes.drop_first());
        assert(h == seq![crate::encoding::hex_digit(hi), crate::encoding::hex_digit(lo)] + t);
        assert forall|k: int| 0 <= k < h.len() implies is_hex_char(#[trigger] h[k]) by {
            if k >= 2 {
                assert(h[k] == t[k - 2]);
            }
        }
    }
}

/// The `name=value` part of a cookie set by `cookie_text`.
proof fn lemma_cookie_pair(name: Seq<char>, value: Seq<char>, age: int)
    requires
        !name.contains(';'),
        !value.contains(';'),
    ensures
        cookie_pair(cookie_text(name, value, age)) == name + "="@ + value,
{
    reveal_strlit("=");
    reveal_strlit("; Path=/; HttpOnly; SameSite=Lax; Max-Age=");
    let pair = name + "="@ + value;
    let t = cookie_text(name, value, age);
    let rest = "; Path=/; HttpOnly; SameSite=Lax; Max-Age="@ + signed_decimal(age);
    assert(t =~= pair + rest);
    assert(rest[0] == ';');
    assert forall|k: int| 0 <= k < pair.len() implies t[k] != ';' by {
        assert(t[k] == pair[k]);
        if k < name.len() {
            assert(pair[k] == name[k]);
        } else if k > name.len() {
            assert(pair[k] == value[k - name.len() - 1]);
        }
    }
    crate::text::lemma_first_index_at(t, ';', pair.len() as int);
    assert(t.subrange(0, pair.len() as int) =~= pair);
}

/// A `Cookie` header `a; b` splits into `a` and ` b`.
proof fn lemma_split_pair(a: Seq<char>, b: Seq<char>)
    requires
        !a.contains(';'),
        !b.contains(';'),
    ensures
        split(a + "; "@ + b, ';') == seq![a, seq![' '] + b],
{
    reveal_strlit("; ");
    let h = a + "; "@ + b;
    let tail = seq![' '] + b;
    assert forall|k: int| 0 <= k < a.len() implies h[k] != ';' by {
        assert(h[k] == a[k]);
    }
    assert(h[a.len() as int] == ';');
    crate::text::lemma_first_index_at(h, ';', a.len() as int);
    assert(h.subrange(0, a.len() as int) =~= a);
    assert(h.subrange(a.len() as int + 1, h.len() as int) =~= tail);
    assert forall|k: int| 0 <= k < tail.len() implies tail[k] != ';' by {
        if k > 0 {
            assert(tail[k] == b[k - 1]);
        }
    }
    crate::text::lemma_first_index_none(tail, ';');
    assert(split(tail, ';') == seq![tail]);
    assert(split(h, ';') == seq![a] + split(tail, ';'));
    assert(seq![a] + seq![tail] =~= seq![a, tail]);
}

/// The value of a `name=value` piece for its own name, when the name has no `=` and the
/// piece starts and ends with no whitespace.
proof fn lemma_piece_value(name: Seq<char>, value: Seq<char>, other: Seq<char>)
    requires
        name.len() > 0,
        !is_ws(name[0]),
        !name.contains('='),
        value.len() > 0 ==> !is_ws(value.last()),
        other.len() != name.len(),
    ensures
        cookie_piece_value(name + "="@ + value, name) == Some(value),
        cookie_piece_value(name + "="@ + value, other) is None,
        cookie_piece_value(seq![' '] + name + "="@ + value, name) == Some(value),
{
    reveal_strlit("=");
    let p = name + "="@ + value;
    assert(p[0] == name[0]);
    assert(p.last() == if value.len() > 0 { value.last() } else { '=' });
    crate::text::lemma_trim_noop(p);
    assert forall|k: int| 0 <= k < name.len() implies p[k] != '=' by {
        assert(p[k] == name[k]);
    }
    assert(p[name.len() as int] == '=');
    crate::text::lemma_first_index_at(p, '=', name.len() as int);
    assert(p.subrange(0, name.len() as int) =~= name);
    assert(p.subrange(name.len() as int + 1, p.len() as int) =~= value);
    let q = seq![' '] + name + "="@ + value;
    assert(q =~= seq![' '] + p);
    assert(q.drop_first() =~= p);
    assert(crate::text::trim_start(q) == crate::text::trim_start(p));
}

/// A login returns where it started. When a login starts (the return URL's text parsing
/// back to the same URL, and the state holding no `;` and not ending in whitespace), and
/// the browser sends back the cookies it was given, the callback with the same state
/// passes and returns to the URL the login was started for.
pub proof fn law_login_returns_where_it_started(
    return_to: Option<Seq<char>>,
    frontend_origin: Seq<char>,
    client_id: Seq<char>,
    redirect_url: Seq<char>,
    state: Seq<char>,
)
    requires
        login_start(return_to, frontend_origin, client_id, redirect_url, state) is Ok,
        !state.contains(';'),
        state.len() > 0 ==> !is_ws(state.last()),
        parsed_url(login_return_url(return_to, frontend_origin).3) == Ok::<UrlView, Seq<char>>(
            login_return_url(return_to, frontend_origin),
        ),
        2 * vstd::utf8::encode_utf8(login_return_url(return_to, frontend_origin).3).len()
            <= usize::MAX,
    ensures
        match login_start(return_to, frontend_origin, client_id, redirect_url, state) {
            Ok(started) => callback_check(
                state,
                Some(cookie_header_after(started.1)),
                frontend_origin,
            ) == Ok::<UrlView, (ErrorKind, Seq<char>)>(login_return_url(return_to, frontend_origin)),
            Err(_) => true,
        },
{
    reveal_strlit("savhub_github_state");
    reveal_strlit("savhub_github_return_to");
    let rt = login_return_url(return_to, frontend_origin);
    let hex = hex_text(vstd::utf8::encode_utf8(rt.3));
    let started = login_start(return_to, frontend_origin, client_id, redirect_url, state)->Ok_0;
    let cookies = started.1;
    assert(cookies == seq![
        cookie_text(state_cookie(), state, 600),
        cookie_text(return_to_cookie(), hex, 600),
    ]);
    lemma_hex_text_chars(vstd::utf8::encode_utf8(rt.3));
    assert(!state_cookie().contains(';')) by {
        crate::text::lemma_free(state_cookie(), ';');
    }
    assert(!return_to_cookie().contains(';')) by {
        crate::text::lemma_free(return_to_cookie(), ';');
    }
    assert(!hex.contains(';')) by {
        assert forall|k: int| 0 <= k < hex.len() implies hex[k] != ';' by {
            assert(is_hex_char(hex[k]));
        }
        crate::text::lemma_free(hex, ';');
    }
    lemma_cookie_pair(state_cookie(), state, 600);
    lemma_cookie_pair(return_to_cookie(), hex, 600);
    let p0 = state_cookie() + "="@ + state;
    let p1 = return_to_cookie() + "="@ + hex;
    let pairs = cookies.map_values(|c: Seq<char>| cookie_pair(c));
    assert(pairs =~= seq![p0, p1]);
    assert(crate::text::join(pairs, "; "@) == crate::text::join(pairs.drop_last(), "; "@) + "; "@
        + pairs.last());
    assert(pairs.drop_last() =~= seq![p0]);
    let header = p0 + "; "@ + p1;
    assert(cookie_header_after(cookies) == header);
    reveal_strlit("=");
    crate::text::lemma_concat_free(state_cookie(), "="@, ';');
    crate::text::lemma_concat_free(state_cookie() + "="@, state, ';');
    crate::text::lemma_concat_free(return_to_cookie(), "="@, ';');
    crate::text::lemma_concat_free(return_to_cookie() + "="@, hex, ';');
    lemma_split_pair(p0, p1);
    let pieces = split(header, ';');
    assert(pieces == seq![p0, seq![' '] + p1]);
    assert(!state_cookie().contains('=')) by {
        crate::text::lemma_free(state_cookie(), '=');
    }
    assert(!return_to_cookie().contains('=')) by {
        crate::text::lemma_free(return_to_cookie(), '=');
    }
    if hex.len() > 0 {
        assert(is_hex_char(hex.last()));
    }
    lemma_piece_value(state_cookie(), state, return_to_cookie());
    lemma_piece_value(return_to_cookie(), hex, state_cookie());
    assert(seq![' '] + p1 =~= seq![' '] + return_to_cookie() + "="@ + hex);
    let fs = |piece: Seq<char>| cookie_piece_value(piece, state_cookie());
    let fr = |piece: Seq<char>| cookie_piece_value(piece, return_to_cookie());
    assert(pieces[0] == p0);
    assert(first_match(pieces, fs) == Some(state));
    assert(pieces.drop_first() =~= seq![seq![' '] + p1]);
    assert(first_match(pieces, fr) == first_match(pieces.drop_first(), fr));
    assert(first_match(pieces.drop_first(), fr) == Some(hex));
    assert(cookie_in(Some(header), state_cookie()) == Some(state));
    assert(cookie_in(Some(header), return_to_cookie()) == Some(hex));
    law_hex_round_trip(rt.3);
}

} // verus!
