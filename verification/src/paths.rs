//! The paths the web client builds: API listing requests, documentation pages, and the
//! redirect that adds a language to an address that lacks one.
use vstd::prelude::*;

use crate::json::str_eq;
use crate::text::{
    chars_of, concat, i64_to_decimal, join, join_strings, signed_decimal, string_of, strs_of,
    trim, trim_vec,
};

verus! {

/// Whether a path segment is a language the client speaks.
pub open spec fn is_lang(s: Seq<char>) -> bool {
    s == "en"@ || s == "zh"@
}

fn is_lang_str(s: &str) -> (r: bool)
    ensures
        r == is_lang(s@),
{
    str_eq(s, "en") || str_eq(s, "zh")
}

/// The address a page without a language moves to: the saved language (English when
/// none or another is saved) put before the path; `None` when the path starts with a
/// language.
pub open spec fn lang_redirect_target(segments: Seq<Seq<char>>, saved: Option<Seq<char>>) -> Option<
    Seq<char>,
> {
    if segments.len() > 0 && is_lang(segments[0]) {
        None
    } else {
        let lang = match saved {
            Some(l) => if is_lang(l) {
                l
            } else {
                "en"@
            },
            None => "en"@,
        };
        Some("/"@ + lang + "/"@ + join(segments, "/"@))
    }
}

/// The address a page without a language moves to, given the path's segments and the
/// saved language.
pub fn lang_redirect(segments: &Vec<String>, saved_lang: Option<&str>) -> (r: Option<String>)
    ensures
        match r {
            Some(u) => lang_redirect_target(
                strs_of(segments@),
                match saved_lang {
                    Some(l) => Some(l@),
                    None => None,
                },
            ) == Some(u@),
            None => lang_redirect_target(
                strs_of(segments@),
                match saved_lang {
                    Some(l) => Some(l@),
                    None => None,
                },
            ) is None,
        },
{
    if segments.len() > 0 && is_lang_str(segments[0].as_str()) {
        assert(strs_of(segments@)[0] == segments@[0]@);
        return None;
    }
    if segments.len() > 0 {
        assert(strs_of(segments@)[0] == segments@[0]@);
    }
    let lang: &str = match saved_lang {
        Some(l) => if is_lang_str(l) {
            l
        } else {
            "en"
        },
        None => "en",
    };
    let joined = join_strings(segments, "/");
    let a = concat(&concat(&chars_of("/"), &chars_of(lang)), &chars_of("/"));
    Some(string_of(&concat(&a, &chars_of(joined.as_str()))))
}

/// The path a missing page shows: `/` and the segments joined by `/`.
pub fn not_found_path(segments: &Vec<String>) -> (r: String)
    ensures
        r@ == "/"@ + join(strs_of(segments@), "/"@),
{
    let joined = join_strings(segments, "/");
    string_of(&concat(&chars_of("/"), &chars_of(joined.as_str())))
}

/// The API path of a documentation page: the language's index for `/` or an empty
/// path, else the page under it.
pub open spec fn docs_api(lang: Seq<char>, path: Seq<char>) -> Seq<char> {
    if path == "/"@ || path.len() == 0 {
        "/docs/"@ + lang
    } else {
        "/docs/"@ + lang + "/"@ + path
    }
}

/// The API path of a documentation page.
pub fn docs_api_path(lang: &str, path: &str) -> (r: String)
    ensures
        r@ == docs_api(lang@, path@),
{
    let base = concat(&chars_of("/docs/"), &chars_of(lang));
    if str_eq(path, "/") || path.is_empty() {
        string_of(&base)
    } else {
        string_of(&concat(&concat(&base, &chars_of("/")), &chars_of(path)))
    }
}

/// The API path of a page of a catalog listing: twenty entries from `offset`, in the
/// order `sort` when given, matching the trimmed search text when it is not blank, and
/// within the repository `repo` when given.
pub open spec fn catalog_list(
    base: Seq<char>,
    sort: Option<Seq<char>>,
    offset: i64,
    search: Seq<char>,
    repo: Option<Seq<char>>,
) -> Seq<char> {
    let head = base + "?limit=20"@;
    let sorted = match sort {
        Some(s) => head + "&sort="@ + s,
        None => head,
    };
    let paged = sorted + "&cursor="@ + signed_decimal(offset as int);
    let searched = if trim(search).len() > 0 {
        paged + "&q="@ + trim(search)
    } else {
        paged
    };
    match repo {
        Some(r) => searched + "&repo="@ + r,
        None => searched,
    }
}

/// The API path of a page of a catalog listing.
pub fn catalog_list_path(
    base: &str,
    sort: Option<&str>,
    offset: i64,
    search: &str,
    repo: Option<&str>,
) -> (r: String)
    ensures
        r@ == catalog_list(
            base@,
            match sort {
                Some(s) => Some(s@),
                None => None,
            },
            offset,
            search@,
            match repo {
                Some(x) => Some(x@),
                None => None,
            },
        ),
{
    let mut v = concat(&chars_of(base), &chars_of("?limit=20"));
    match sort {
        Some(s) => {
            v = concat(&concat(&v, &chars_of("&sort=")), &chars_of(s));
        },
        None => {},
    }
    let number = i64_to_decimal(offset);
    v = concat(&concat(&v, &chars_of("&cursor=")), &chars_of(number.as_str()));
    let t = trim_vec(&chars_of(search));
    if t.len() > 0 {
        v = concat(&concat(&v, &chars_of("&q=")), &t);
    }
    match repo {
        Some(x) => {
            v = concat(&concat(&v, &chars_of("&repo=")), &chars_of(x));
        },
        None => {},
    }
    string_of(&v)
}


// ---------------------------------------------------------------------------
// The starting state of a catalog list
// ---------------------------------------------------------------------------

/// Whether a list can be sorted by `s`.
pub open spec fn is_sort(s: Seq<char>) -> bool {
    s == "stars"@ || s == "updated"@ || s == "name"@ || s == "installs"@ || s == "users"@
}

fn is_sort_str(s: &str) -> (r: bool)
    ensures
        r == is_sort(s@),
{
    str_eq(s, "stars") || str_eq(s, "updated") || str_eq(s, "name") || str_eq(s, "installs")
        || str_eq(s, "users")
}

/// The search text a list starts with: when it follows the address, the address's `q`,
/// else the saved one, else nothing; otherwise nothing.
pub fn initial_search(follows_address: bool, address_q: Option<&str>, saved_q: Option<&str>) -> (r:
    String)
    ensures
        r@ == if follows_address {
            match address_q {
                Some(q) => q@,
                None => match saved_q {
                    Some(q) => q@,
                    None => Seq::empty(),
                },
            }
        } else {
            Seq::empty()
        },
{
    if !follows_address {
        return String::new();
    }
    match address_q {
        Some(q) => q.to_string(),
        None => match saved_q {
            Some(q) => q.to_string(),
            None => String::new(),
        },
    }
}

/// The order a list starts in: when it follows the address, the address's `sort` if it
/// is a known order, else the saved one if it is, else by stars; otherwise by stars.
pub fn initial_sort(follows_address: bool, address_sort: Option<&str>, saved_sort: Option<&str>) -> (r:
    String)
    ensures
        r@ == if follows_address && (address_sort matches Some(a) && is_sort(a@)) {
            address_sort->0@
        } else if follows_address && (saved_sort matches Some(b) && is_sort(b@)) {
            saved_sort->0@
        } else {
            "stars"@
        },
{
    if follows_address {
        match address_sort {
            Some(a) => if is_sort_str(a) {
                return a.to_string();
            },
            None => {},
        }
        match saved_sort {
            Some(b) => if is_sort_str(b) {
                return b.to_string();
            },
            None => {},
        }
    }
    "stars".to_string()
}

/// The storage key under which a list keeps one of its settings: the list's prefix, a
/// dot, and the setting's name.
pub fn list_storage_key(prefix: &str, setting: &str) -> (r: String)
    ensures
        r@ == prefix@ + "."@ + setting@,
{
    string_of(&concat(&concat(&chars_of(prefix), &chars_of(".")), &chars_of(setting)))
}

/// The state of a catalog list of skills or flocks, which loads page by page as the reader
/// scrolls: the generation of the current search (raised whenever the search, the sort or
/// the grouping changes), whether a page is loading, whether flocks (grouped) or single
/// skills are listed, how many of each are shown, and whether more remain.
#[derive(Debug, Clone, Copy, PartialEq, Eq, Structural)]
pub struct CatalogListState {
    pub generation: u32,
    pub loading: bool,
    pub grouped: bool,
    pub flock_count: usize,
    pub skill_count: usize,
    pub has_more: bool,
}

/// What happens to a catalog list.
#[derive(Debug, Clone, Copy, PartialEq, Eq, Structural)]
pub enum CatalogListEvent {
    /// The search, the sort or the grouping changed (to `grouped`): the list starts over.
    Reset { grouped: bool },
    /// The reader scrolled near the bottom of the page.
    NearBottom,
    /// A page arrived for the search of `generation`, of flocks (`grouped`) or skills:
    /// `count` items, to be appended or to replace those shown, and whether more remain.
    Loaded { generation: u32, grouped: bool, append: bool, count: usize, more: bool },
    /// A page request failed.
    Failed,
}

/// What the list does after an event.
#[derive(Debug, Clone, Copy, PartialEq, Eq, Structural)]
pub enum CatalogListAction {
    Nothing,
    /// Request the page of flocks (`grouped`) or skills starting at `offset`, for the
    /// search of `generation`.
    Fetch { grouped: bool, offset: i64, generation: u32 },
    /// Show the arrived flocks (`grouped`) or skills: appended, or in place of those shown.
    Apply { grouped: bool, append: bool },
}

/// How many items of the kind listed are shown.
pub open spec fn catalog_shown(s: CatalogListState) -> usize {
    if s.grouped {
        s.flock_count
    } else {
        s.skill_count
    }
}

/// Starting a page request, unless one is loading: after the items of the kind listed
/// when appending, else from the start.
pub open spec fn catalog_fetch_start(s: CatalogListState, append: bool) -> (
    CatalogListState,
    CatalogListAction,
) {
    if s.loading {
        (s, CatalogListAction::Nothing)
    } else {
        (
            CatalogListState { loading: true, ..s },
            CatalogListAction::Fetch {
                grouped: s.grouped,
                offset: if append {
                    catalog_shown(s) as i64
                } else {
                    0
                },
                generation: s.generation,
            },
        )
    }
}

/// The next state of a catalog list, and what to do.
pub open spec fn catalog_list_next(s: CatalogListState, e: CatalogListEvent) -> (
    CatalogListState,
    CatalogListAction,
) {
    match e {
        CatalogListEvent::Reset { grouped } => catalog_fetch_start(
            CatalogListState {
                generation: (s.generation + 1) as u32,
                loading: s.loading,
                grouped,
                flock_count: 0,
                skill_count: 0,
                has_more: true,
            },
            false,
        ),
        CatalogListEvent::NearBottom => if !s.has_more || s.loading {
            (s, CatalogListAction::Nothing)
        } else {
            catalog_fetch_start(s, true)
        },
        CatalogListEvent::Loaded { generation, grouped, append, count, more } => if generation
            != s.generation {
            (CatalogListState { loading: false, ..s }, CatalogListAction::Nothing)
        } else if grouped {
            (
                CatalogListState {
                    loading: false,
                    flock_count: if append {
                        (s.flock_count + count) as usize
                    } else {
                        count
                    },
                    has_more: more,
                    ..s
                },
                CatalogListAction::Apply { grouped, append },
            )
        } else {
            (
                CatalogListState {
                    loading: false,
                    skill_count: if append {
                        (s.skill_count + count) as usize
                    } else {
                        count
                    },
                    has_more: more,
                    ..s
                },
                CatalogListAction::Apply { grouped, append },
            )
        },
        CatalogListEvent::Failed => (
            CatalogListState { loading: false, has_more: false, ..s },
            CatalogListAction::Nothing,
        ),
    }
}

fn catalog_fetch_begin(s: CatalogListState, append: bool) -> (r: (CatalogListState, CatalogListAction))
    ensures
        r == catalog_fetch_start(s, append),
{
    if s.loading {
        (s, CatalogListAction::Nothing)
    } else {
        let shown = if s.grouped {
            s.flock_count
        } else {
            s.skill_count
        };
        let offset: i64 = if append {
            shown as i64
        } else {
            0
        };
        (
            CatalogListState { loading: true, ..s },
            CatalogListAction::Fetch { grouped: s.grouped, offset, generation: s.generation },
        )
    }
}

/// One step of a catalog list: the next state and the action for `event`.
pub fn catalog_list_step(state: CatalogListState, event: CatalogListEvent) -> (r: (
    CatalogListState,
    CatalogListAction,
))
    requires
        event is Reset ==> state.generation < u32::MAX,
        event matches CatalogListEvent::Loaded { grouped, append, count, .. } ==> (append ==> (
        if grouped {
            state.flock_count
        } else {
            state.skill_count
        }) + count <= usize::MAX),
    ensures
        r == catalog_list_next(state, event),
{
    match event {
        CatalogListEvent::Reset { grouped } => catalog_fetch_begin(
            CatalogListState {
                generation: state.generation + 1,
                loading: state.loading,
                grouped,
                flock_count: 0,
                skill_count: 0,
                has_more: true,
            },
            false,
        ),
        CatalogListEvent::NearBottom => {
            if !state.has_more || state.loading {
                (state, CatalogListAction::Nothing)
            } else {
                catalog_fetch_begin(state, true)
            }
        },
        CatalogListEvent::Loaded { generation, grouped, append, count, more } => {
            if generation != state.generation {
                (CatalogListState { loading: false, ..state }, CatalogListAction::Nothing)
            } else if grouped {
                let flock_count = if append {
                    state.flock_count + count
                } else {
                    count
                };
                (
                    CatalogListState { loading: false, flock_count, has_more: more, ..state },
                    CatalogListAction::Apply { grouped, append },
                )
            } else {
                let skill_count = if append {
                    state.skill_count + count
                } else {
                    count
                };
                (
                    CatalogListState { loading: false, skill_count, has_more: more, ..state },
                    CatalogListAction::Apply { grouped, append },
                )
            }
        },
        CatalogListEvent::Failed => (
            CatalogListState { loading: false, has_more: false, ..state },
            CatalogListAction::Nothing,
        ),
    }
}

/// A catalog list is fetched safely: a page that arrives for an older search is dropped
/// (nothing shown changes, and the list stops loading); no request starts while one is
/// loading; and a request asks, for the current search, for the kind listed, from the
/// number of items of that kind shown.
pub proof fn law_catalog_list_fetch_guard(s: CatalogListState, e: CatalogListEvent)
    ensures
        e matches CatalogListEvent::Loaded { generation, .. } ==> (generation != s.generation
            ==> (catalog_list_next(s, e).1 == CatalogListAction::Nothing && catalog_list_next(
            s,
            e,
        ).0 == (CatalogListState { loading: false, ..s }))),
        s.loading ==> !(catalog_list_next(s, e).1 is Fetch),
        catalog_list_next(s, e).1 matches CatalogListAction::Fetch { grouped, offset, generation }
            ==> ({
            let n = catalog_list_next(s, e).0;
            &&& grouped == n.grouped
            &&& offset == catalog_shown(n) as i64
            &&& generation == n.generation
            &&& n.loading
        }),
{
}

} // verus!
