//! Path expander: substitutes `%NAME%` environment tokens and a leading `~`
//! home shorthand in user-authored path strings. The environment and the
//! home directory are passed in as plain values, so expansion is a pure
//! function of its arguments.

use vstd::prelude::*;

use crate::text::{append_chars, chars_of, eq_chars, find_char, find_char_from, string_from_chars, sub_chars};

verus! {

broadcast use crate::text::lemma_find_char_bounds;

/// Value of `name` in the environment list, or empty when absent; the first
/// binding wins.
pub open spec fn env_val(env: Seq<(Seq<char>, Seq<char>)>, name: Seq<char>) -> Seq<char>
    decreases env.len(),
{
    if env.len() == 0 {
        Seq::empty()
    } else if env[0].0 == name {
        env[0].1
    } else {
        env_val(env.drop_first(), name)
    }
}

/// True when the environment list binds `name`.
pub open spec fn env_has(env: Seq<(Seq<char>, Seq<char>)>, name: Seq<char>) -> bool
    decreases env.len(),
{
    if env.len() == 0 {
        false
    } else {
        env[0].0 == name || env_has(env.drop_first(), name)
    }
}

/// Looks `name` up in the environment list; the first binding wins.
pub fn env_get(env: &Vec<(String, String)>, name: &Vec<char>) -> (r: Option<Vec<char>>)
    ensures
        match r {
            Some(v) => env_has(env.deep_view(), name@) && v@ == env_val(env.deep_view(), name@),
            None => !env_has(env.deep_view(), name@),
        },
{
    let ghost e = env.deep_view();
    proof {
        assert(e.skip(0) =~= e);
    }
    let mut i: usize = 0;
    while i < env.len()
        invariant
            i <= env@.len(),
            e == env.deep_view(),
            e.len() == env@.len(),
            forall|j: int| 0 <= j < e.len() ==> e[j] == (env@[j].0@, env@[j].1@),
            env_val(e, name@) == env_val(e.skip(i as int), name@),
            env_has(e, name@) == env_has(e.skip(i as int), name@),
        decreases env@.len() - i,
    {
        let key = chars_of(env[i].0.as_str());
        if eq_chars(&key, name) {
            assert(e.skip(i as int)[0] == e[i as int]);
            return Some(chars_of(env[i].1.as_str()));
        }
        proof {
            assert(e.skip(i as int).drop_first() =~= e.skip(i as int + 1));
            assert(e.skip(i as int)[0] == e[i as int]);
        }
        i += 1;
    }
    proof {
        assert(e.skip(e.len() as int) =~= Seq::<(Seq<char>, Seq<char>)>::empty());
    }
    None
}

/// Substitution of every `%NAME%` token, scanning left to right; an unset
/// name is substituted by the empty string, and a `%%` with nothing between
/// the delimiters is no token (its second `%` may open the next token).
pub open spec fn expand_vars(s: Seq<char>, env: Seq<(Seq<char>, Seq<char>)>) -> Seq<char>
    decreases s.len(),
{
    match find_char_from(s, '%', 0) {
        Option::None => s,
        Option::Some(i) => match find_char_from(s, '%', i + 1) {
            Option::None => s,
            Option::Some(j) => if j > i + 1 {
                s.subrange(0, i) + env_val(env, s.subrange(i + 1, j)) + expand_vars(
                    s.skip(j + 1),
                    env,
                )
            } else {
                s.subrange(0, j) + expand_vars(s.skip(j), env)
            },
        },
    }
}

/// Substitution of every `%NAME%` token whose name the environment binds;
/// tokens of unbound names are kept verbatim, and scanning continues after
/// their closing delimiter.
pub open spec fn expand_known_vars(s: Seq<char>, env: Seq<(Seq<char>, Seq<char>)>) -> Seq<char>
    decreases s.len(),
{
    match find_char_from(s, '%', 0) {
        Option::None => s,
        Option::Some(i) => match find_char_from(s, '%', i + 1) {
            Option::None => s,
            Option::Some(j) => if j > i + 1 && env_has(env, s.subrange(i + 1, j)) {
                s.subrange(0, i) + env_val(env, s.subrange(i + 1, j)) + expand_known_vars(
                    s.skip(j + 1),
                    env,
                )
            } else {
                s.subrange(0, j + 1) + expand_known_vars(s.skip(j + 1), env)
            },
        },
    }
}

/// Expands `%NAME%` tokens in `s`, substituting the empty string for unset
/// names.
pub fn expand_vars_chars(s: &Vec<char>, env: &Vec<(String, String)>) -> (r: Vec<char>)
    ensures
        r@ == expand_vars(s@, env.deep_view()),
    decreases s@.len(),
{
    let n: usize = s.len();
    match find_char(s, '%', 0) {
        Option::None => sub_chars(s, 0, n),
        Option::Some(i) => match find_char(s, '%', i + 1) {
            Option::None => sub_chars(s, 0, n),
            Option::Some(j) => {
                if j > i + 1 {
                    let name = sub_chars(s, i + 1, j);
                    let val: Vec<char> = match env_get(env, &name) {
                        Option::Some(v) => v,
                        Option::None => Vec::new(),
                    };
                    proof {
                        lemma_env_val_absent(env.deep_view(), name@);
                    }
                    let mut out = sub_chars(s, 0, i);
                    append_chars(&mut out, &val);
                    let rest = sub_chars(s, j + 1, n);
                    let tail = expand_vars_chars(&rest, env);
                    append_chars(&mut out, &tail);
                    out
                } else {
                    let mut out = sub_chars(s, 0, j);
                    let rest = sub_chars(s, j, n);
                    let tail = expand_vars_chars(&rest, env);
                    append_chars(&mut out, &tail);
                    out
                }
            },
        },
    }
}

/// Expands the `%NAME%` tokens of `s` that the environment binds, keeping
/// the others verbatim.
pub fn expand_known_vars_chars(s: &Vec<char>, env: &Vec<(String, String)>) -> (r: Vec<char>)
    ensures
        r@ == expand_known_vars(s@, env.deep_view()),
    decreases s@.len(),
{
    let n: usize = s.len();
    match find_char(s, '%', 0) {
        Option::None => sub_chars(s, 0, n),
        Option::Some(i) => match find_char(s, '%', i + 1) {
            Option::None => sub_chars(s, 0, n),
            Option::Some(j) => {
                let known: Option<Vec<char>> = if j > i + 1 {
                    let name = sub_chars(s, i + 1, j);
                    env_get(env, &name)
                } else {
                    Option::None
                };
                match known {
                    Option::Some(val) => {
                        let mut out = sub_chars(s, 0, i);
                        append_chars(&mut out, &val);
                        let rest = sub_chars(s, j + 1, n);
                        let tail = expand_known_vars_chars(&rest, env);
                        append_chars(&mut out, &tail);
                        out
                    },
                    Option::None => {
                        let mut out = sub_chars(s, 0, j + 1);
                        let rest = sub_chars(s, j + 1, n);
                        let tail = expand_known_vars_chars(&rest, env);
                        append_chars(&mut out, &tail);
                        out
                    },
                }
            },
        },
    }
}

/// An unbound name has the empty value.
proof fn lemma_env_val_absent(env: Seq<(Seq<char>, Seq<char>)>, name: Seq<char>)
    ensures
        !env_has(env, name) ==> env_val(env, name) == Seq::<char>::empty(),
    decreases env.len(),
{
    if env.len() > 0 {
        lemma_env_val_absent(env.drop_first(), name);
    }
}

/// Number of leading occurrences of `c`.
pub open spec fn count_leading(s: Seq<char>, c: char) -> int
    decreases s.len(),
{
    if s.len() > 0 && s[0] == c {
        1 + count_leading(s.drop_first(), c)
    } else {
        0
    }
}

/// `count_leading` is the length of the maximal prefix of `c`s.
pub proof fn lemma_count_leading(s: Seq<char>, c: char, l: int)
    requires
        0 <= l <= s.len(),
        forall|j: int| 0 <= j < l ==> s[j] == c,
        l == s.len() || s[l] != c,
    ensures
        count_leading(s, c) == l,
    decreases s.len(),
{
    if s.len() > 0 && s[0] == c {
        lemma_count_leading(s.drop_first(), c, l - 1);
    }
}

/// A path separator, in either convention.
pub open spec fn is_sep(c: char) -> bool {
    c == '/' || c == '\\'
}

/// Number of trailing path separators.
pub open spec fn count_trailing_seps(s: Seq<char>) -> int
    decreases s.len(),
{
    if s.len() > 0 && is_sep(s.last()) {
        1 + count_trailing_seps(s.drop_last())
    } else {
        0
    }
}

/// `count_trailing_seps` is the length of the maximal separator suffix.
proof fn lemma_count_trailing_seps(s: Seq<char>, t: int)
    requires
        0 <= t <= s.len(),
        forall|j: int| s.len() - t <= j < s.len() ==> is_sep(s[j]),
        t == s.len() || !is_sep(s[s.len() - t - 1]),
    ensures
        count_trailing_seps(s) == t,
    decreases s.len(),
{
    if s.len() > 0 && is_sep(s.last()) {
        lemma_count_trailing_seps(s.drop_last(), t - 1);
    }
}

/// What remains of `s` after stripping every leading `~`, then every leading
/// `/`.
pub open spec fn home_rest(s: Seq<char>) -> Seq<char> {
    let t = s.skip(count_leading(s, '~'));
    t.skip(count_leading(t, '/'))
}

/// Joins a non-empty home directory to the remainder of a `~` path: the home
/// loses its trailing separators, the two parts meet at a single `/`.
pub open spec fn join_home(h: Seq<char>, rest: Seq<char>) -> Seq<char> {
    if rest.len() == 0 {
        h
    } else {
        h.take(h.len() - count_trailing_seps(h)) + seq!['/'] + rest
    }
}

/// Home-directory substitution: a string starting with `~` is rebased onto
/// the home directory when one is known and non-empty; anything else is
/// unchanged.
pub open spec fn apply_home(s: Seq<char>, home: Option<Seq<char>>) -> Seq<char> {
    match home {
        Option::Some(h) => if s.len() > 0 && s[0] == '~' && h.len() > 0 {
            join_home(h, home_rest(s))
        } else {
            s
        },
        Option::None => s,
    }
}

/// Strips every leading occurrence of `c`.
fn strip_leading(v: &Vec<char>, c: char) -> (r: Vec<char>)
    ensures
        r@ == v@.skip(count_leading(v@, c)),
{
    let n: usize = v.len();
    let mut i: usize = 0;
    while i < n && v[i] == c
        invariant
            i <= n,
            n == v@.len(),
            forall|j: int| 0 <= j < i ==> v@[j] == c,
        decreases n - i,
    {
        i += 1;
    }
    proof {
        lemma_count_leading(v@, c, i as int);
    }
    sub_chars(v, i, n)
}

/// Strips every trailing path separator.
fn strip_trailing_seps(v: &Vec<char>) -> (r: Vec<char>)
    ensures
        r@ == v@.take(v@.len() - count_trailing_seps(v@)),
{
    let n: usize = v.len();
    let mut end: usize = n;
    while end > 0 && (v[end - 1] == '/' || v[end - 1] == '\\')
        invariant
            end <= n,
            n == v@.len(),
            forall|j: int| end <= j < n ==> is_sep(v@[j]),
        decreases end,
    {
        end -= 1;
    }
    proof {
        lemma_count_trailing_seps(v@, n - end);
    }
    let r = sub_chars(v, 0, end);
    assert(v@.subrange(0, end as int) =~= v@.take(end as int));
    r
}

/// Applies the home-directory shorthand to an expanded path.
fn apply_home_chars(s: Vec<char>, home: &Option<String>) -> (r: Vec<char>)
    ensures
        r@ == apply_home(s@, home.deep_view()),
{
    match home {
        Option::Some(h) => {
            if s.len() > 0 && s[0] == '~' && h.as_str().unicode_len() > 0 {
                let hc = chars_of(h.as_str());
                let rest = strip_leading(&strip_leading(&s, '~'), '/');
                if rest.len() == 0 {
                    hc
                } else {
                    let mut out = strip_trailing_seps(&hc);
                    out.push('/');
                    assert(out@ =~= hc@.take(hc@.len() - count_trailing_seps(hc@)) + seq!['/']);
                    append_chars(&mut out, &rest);
                    out
                }
            } else {
                s
            }
        },
        Option::None => s,
    }
}

/// Expands a raw, user-authored path string: every `%NAME%` token is
/// substituted (empty when unset), then a leading `~` is rebased onto the
/// home directory. Returns nothing when the final string is empty, or when
/// the input was the home shorthand alone and no home directory resolves.
pub fn expand_path(raw: &str, env: &Vec<(String, String)>, home: &Option<String>) -> (r: Option<
    String,
>)
    ensures
        r.deep_view() == expand_path_spec(raw@, env.deep_view(), home.deep_view()),
{
    let s = chars_of(raw);
    let expanded = expand_vars_chars(&s, env);
    let ghost ev = expanded@;
    let tilde_only = expanded.len() == 1 && expanded[0] == '~';
    proof {
        reveal_strlit("~");
        assert(tilde_only == (ev =~= "~"@));
    }
    let homed = apply_home_chars(expanded, home);
    if homed.len() == 0 {
        Option::None
    } else if tilde_only && !home_available(home) {
        Option::None
    } else {
        Option::Some(string_from_chars(&homed))
    }
}

/// A home directory is available when one is known and non-empty.
pub open spec fn home_known(home: Option<Seq<char>>) -> bool {
    match home {
        Option::Some(h) => h.len() > 0,
        Option::None => false,
    }
}

/// True when a non-empty home directory is known.
fn home_available(home: &Option<String>) -> (r: bool)
    ensures
        r == home_known(home.deep_view()),
{
    match home {
        Some(h) => h.as_str().unicode_len() > 0,
        None => false,
    }
}

/// The expander's result: token substitution, then home substitution, then
/// the failure checks — an empty final string, or the home shorthand alone
/// with no home directory to resolve it.
pub open spec fn expand_path_spec(
    raw: Seq<char>,
    env: Seq<(Seq<char>, Seq<char>)>,
    home: Option<Seq<char>>,
) -> Option<Seq<char>> {
    let e = expand_vars(raw, env);
    let r = apply_home(e, home);
    if r.len() == 0 {
        Option::None
    } else if e == "~"@ && !home_known(home) {
        Option::None
    } else {
        Option::Some(r)
    }
}

/// Expands the environment tokens the environment binds, leaving unknown
/// tokens in place; used where a path is normalized for comparison.
pub fn expand_env_vars(s: &str, env: &Vec<(String, String)>) -> (r: String)
    ensures
        r@ == expand_known_vars(s@, env.deep_view()),
{
    let v = chars_of(s);
    let out = expand_known_vars_chars(&v, env);
    string_from_chars(&out)
}

/// Normalizes a user-authored path for prefix comparison by expanding the
/// known environment tokens in it.
pub fn normalize_path(s: &str, env: &Vec<(String, String)>) -> (r: String)
    ensures
        r@ == expand_known_vars(s@, env.deep_view()),
{
    expand_env_vars(s, env)
}

} // verus!
