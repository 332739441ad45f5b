//! Store-search support: validating an application identifier, building the
//! store query URLs, and extracting the first application identifier out of
//! a search-suggestion response. The requests themselves run in the
//! surrounding application.

use vstd::prelude::*;

use crate::scan::is_digits;
use crate::text::{
    chars_of, is_match_at, string_from_chars, sub_chars, trim_chars, trim_spec,
};

verus! {

/// What `urlencoding::encode` returns for a text: a function of the text
/// alone.
pub uninterp spec fn url_encoded(s: Seq<char>) -> Seq<char>;

/// A character the encoding passes through unchanged: ASCII alphanumerics
/// and `-`, `_`, `.`, `~`.
pub open spec fn is_unreserved(c: char) -> bool {
    ('a' <= c && c <= 'z') || ('A' <= c && c <= 'Z') || ('0' <= c && c <= '9') || c == '-' || c
        == '_' || c == '.' || c == '~'
}

/// Relies on `urlencoding::encode`: percent-encodes every byte except ASCII
/// alphanumerics and `-`, `_`, `.`, `~`, so a text of unreserved characters
/// passes through unchanged.
#[verifier::external_body]
fn url_encode(s: &str) -> (r: String)
    ensures
        r@ == url_encoded(s@),
        (forall|i: int| 0 <= i < s@.len() ==> is_unreserved(s@[i])) ==> r@ == s@,
{
    urlencoding::encode(s).into_owned()
}

/// The trimmed identifier, when it is a plain run of digits.
pub fn validate_app_id(app_id: &str) -> (r: Option<String>)
    ensures
        match r {
            Some(t) => t@ == trim_spec(app_id@) && is_digits(trim_spec(app_id@)),
            None => !is_digits(trim_spec(app_id@)),
        },
{
    let t = trim_chars(&chars_of(app_id));
    let ts = string_from_chars(&t);
    if crate::scan::is_digits_name(ts.as_str()) {
        Some(ts)
    } else {
        None
    }
}

/// The details-lookup URL for a validated application identifier.
pub fn steam_appdetails_url(app_id: &str) -> (r: String)
    ensures
        r@ == "https://store.steampowered.com/api/appdetails?appids="@ + app_id@,
{
    crate::text::join2("https://store.steampowered.com/api/appdetails?appids=", app_id)
}

/// Dashes become spaces before the search term is encoded.
pub open spec fn dash_to_space(c: char) -> char {
    if c == '-' {
        ' '
    } else {
        c
    }
}

/// The search term derived from a query: trimmed, dashes as spaces.
pub open spec fn search_term(query: Seq<char>) -> Seq<char> {
    trim_spec(query).map_values(|c: char| dash_to_space(c))
}

/// The search-suggestion URL for a query, or nothing for a blank query.
pub fn steam_suggest_url(query: &str) -> (r: Option<String>)
    ensures
        match r {
            Some(u) => trim_spec(query@).len() > 0 && u@
                == "https://store.steampowered.com/search/suggest?term="@ + url_encoded(
                search_term(query@),
            ) + "&f=games&cc=US&l=english"@,
            None => trim_spec(query@).len() == 0,
        },
{
    let t = trim_chars(&chars_of(query));
    if t.len() == 0 {
        return None;
    }
    let mut term: Vec<char> = Vec::new();
    let mut i: usize = 0;
    while i < t.len()
        invariant
            i <= t@.len(),
            term@.len() == i,
            forall|j: int| 0 <= j < i ==> term@[j] == dash_to_space(t@[j]),
        decreases t@.len() - i,
    {
        let c = t[i];
        if c == '-' {
            term.push(' ');
        } else {
            term.push(c);
        }
        i += 1;
    }
    proof {
        assert(term@ =~= t@.map_values(|c: char| dash_to_space(c)));
    }
    let term_s = string_from_chars(&term);
    let encoded = url_encode(term_s.as_str());
    Some(
        crate::text::join3(
            "https://store.steampowered.com/search/suggest?term=",
            encoded.as_str(),
            "&f=games&cc=US&l=english",
        ),
    )
}

/// An ASCII digit.
pub open spec fn is_digit(c: char) -> bool {
    '0' <= c && c <= '9'
}

/// Length of the digit run starting at `i`.
pub open spec fn digit_run(s: Seq<char>, i: int) -> int
    decreases s.len() - i,
{
    if 0 <= i < s.len() && is_digit(s[i]) {
        1 + digit_run(s, i + 1)
    } else {
        0
    }
}

/// `digit_run` counts the maximal digit run.
proof fn lemma_digit_run(s: Seq<char>, i: int, r: int)
    requires
        0 <= i,
        i + r <= s.len(),
        0 <= r,
        forall|j: int| i <= j < i + r ==> is_digit(s[j]),
        i + r == s.len() || !is_digit(s[i + r]),
    ensures
        digit_run(s, i) == r,
    decreases s.len() - i,
{
    if 0 <= i < s.len() && is_digit(s[i]) {
        lemma_digit_run(s, i + 1, r - 1);
    }
}

/// A store-app link occurs at `p`: the marker, then four to ten digits,
/// then a closing slash.
pub open spec fn app_link_at(s: Seq<char>, p: int) -> bool {
    is_match_at(s, "/app/"@, p) && {
        let r = digit_run(s, p + 5);
        4 <= r <= 10 && p + 5 + r < s.len() && s[p + 5 + r] == '/'
    }
}

/// Position of the first store-app link at or after `from`.
pub open spec fn first_app_link_from(s: Seq<char>, from: int) -> Option<int>
    decreases s.len() - from,
{
    if from < 0 || from > s.len() {
        Option::None
    } else if from == s.len() {
        Option::None
    } else if app_link_at(s, from) {
        Option::Some(from)
    } else {
        first_app_link_from(s, from + 1)
    }
}

/// The first linked application identifier in a response body, if any: the
/// digits of the first store-app link.
pub open spec fn extracted_app_id(s: Seq<char>) -> Option<Seq<char>> {
    match first_app_link_from(s, 0) {
        Option::Some(p) => Option::Some(s.subrange(p + 5, p + 5 + digit_run(s, p + 5))),
        Option::None => Option::None,
    }
}

/// Positions without a link do not move the first link.
proof fn lemma_first_link_skip(s: Seq<char>, a: int, b: int)
    requires
        0 <= a <= b <= s.len(),
        forall|k: int| a <= k < b ==> !app_link_at(s, k),
    ensures
        first_app_link_from(s, a) == first_app_link_from(s, b),
    decreases b - a,
{
    if a < b {
        lemma_first_link_skip(s, a + 1, b);
    }
}

/// Extracts the first linked application identifier from a search-response
/// body.
pub fn extract_app_id(body: &str) -> (r: Option<String>)
    ensures
        match r {
            Some(id) => extracted_app_id(body@) == Option::Some(id@),
            None => extracted_app_id(body@) is None,
        },
{
    let v = chars_of(body);
    let n: usize = v.len();
    let pat = chars_of("/app/");
    let mut pos: usize = 0;
    while pos <= n
        invariant
            pos <= n + 1,
            n == v@.len(),
            v@ == body@,
            pat@ == "/app/"@,
            first_app_link_from(body@, 0) == first_app_link_from(body@, pos as int),
        decreases n + 1 - pos,
    {
        proof {
            reveal_strlit("/app/");
        }
        match crate::text::find_from(&v, &pat, pos) {
            None => {
                proof {
                    assert forall|k: int| pos <= k < n + 1 implies !app_link_at(body@, k) by {
                        assert(!is_match_at(body@, "/app/"@, k));
                    }
                    lemma_first_link_skip(body@, pos as int, n as int);
                    assert(first_app_link_from(body@, n as int) is None);
                }
                return None;
            },
            Some(p) => {
                proof {
                    assert forall|k: int| pos <= k < p implies !app_link_at(body@, k) by {
                        assert(!is_match_at(body@, "/app/"@, k));
                    }
                    lemma_first_link_skip(body@, pos as int, p as int);
                }
                let mut e: usize = p + 5;
                while e < n && v[e] >= '0' && v[e] <= '9'
                    invariant
                        p + 5 <= e <= n,
                        n == v@.len(),
                        v@ == body@,
                        forall|j: int| p + 5 <= j < e ==> is_digit(body@[j]),
                    decreases n - e,
                {
                    e += 1;
                }
                proof {
                    lemma_digit_run(body@, p + 5, e - (p + 5));
                }
                let run: usize = e - (p + 5);
                if 4 <= run && run <= 10 && e < n && v[e] == '/' {
                    assert(app_link_at(body@, p as int));
                    assert(first_app_link_from(body@, p as int) == Option::Some(p as int));
                    let id = sub_chars(&v, p + 5, e);
                    return Some(string_from_chars(&id));
                }
                proof {
                    assert(!app_link_at(body@, p as int));
                    lemma_first_link_skip(body@, p as int, p as int + 1);
                }
                pos = p + 1;
            },
        }
    }
    proof {
        assert(first_app_link_from(body@, pos as int) is None);
    }
    None
}

} // verus!
