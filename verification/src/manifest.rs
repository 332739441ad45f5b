//! Library-manifest resolver: parses the distribution platform's
//! library-folders manifest and per-app manifests — tolerant, quote-aware
//! key/value text — and resolves a game path to an application identifier
//! by longest canonical install-path prefix.

use vstd::prelude::*;

use crate::expand::{count_leading, expand_known_vars, lemma_count_leading, normalize_path};
use crate::text::{
    chars_of, count_trailing_char, eq_chars, find_char, find_char_from, is_delim,
    lemma_count_trailing_char, lower, lower_chars, push_name, split_tokens, string_from_chars,
    sub_chars, tokens,
};

verus! {

broadcast use crate::text::lemma_find_char_bounds;

/// A token with every leading and trailing double quote removed.
pub open spec fn strip_quotes(s: Seq<char>) -> Seq<char> {
    let t = s.skip(count_leading(s, '"'));
    t.take(t.len() - count_trailing_char(t, '"'))
}

/// Strips leading and trailing double quotes.
fn strip_quotes_chars(v: &Vec<char>) -> (r: Vec<char>)
    ensures
        r@ == strip_quotes(v@),
{
    let n: usize = v.len();
    let mut start: usize = 0;
    while start < n && v[start] == '"'
        invariant
            start <= n,
            n == v@.len(),
            forall|j: int| 0 <= j < start ==> v@[j] == '"',
        decreases n - start,
    {
        start += 1;
    }
    proof {
        lemma_count_leading(v@, '"', start as int);
    }
    let mut end: usize = n;
    while end > start && v[end - 1] == '"'
        invariant
            start <= end <= n,
            n == v@.len(),
            forall|j: int| end <= j < n ==> v@[j] == '"',
        decreases end,
    {
        end -= 1;
    }
    let ghost t = v@.skip(start as int);
    proof {
        if start == n {
            lemma_count_trailing_char(t, '"', 0);
        } else {
            assert(!(v@[start as int] == '"'));
            lemma_count_trailing_char(t, '"', n - end);
        }
    }
    let r = sub_chars(v, start, end);
    proof {
        assert(r@ =~= t.take(t.len() - count_trailing_char(t, '"')));
    }
    r
}

/// The value of `key` among whitespace tokens: the token right after the
/// first token that, unquoted and lower-cased, equals the key; both are
/// unquoted.
pub open spec fn kv_lookup(toks: Seq<Seq<char>>, key: Seq<char>) -> Option<Seq<char>>
    decreases toks.len(),
{
    if toks.len() < 2 {
        Option::None
    } else if lower(strip_quotes(toks[0])) == key {
        Option::Some(strip_quotes(toks[1]))
    } else {
        kv_lookup(toks.drop_first(), key)
    }
}

/// Looks a key up among the manifest's whitespace tokens.
fn kv_lookup_exec(toks: &Vec<String>, key: &str) -> (r: Option<String>)
    ensures
        match r {
            Some(v) => kv_lookup(toks.deep_view(), key@) == Option::Some(v@),
            None => kv_lookup(toks.deep_view(), key@) is None,
        },
{
    let kv = chars_of(key);
    let ghost tv = toks.deep_view();
    let n: usize = toks.len();
    if n < 2 {
        return None;
    }
    proof {
        assert(tv.skip(0) =~= tv);
    }
    let mut i: usize = 0;
    while i < n - 1
        invariant
            i <= toks@.len(),
            n == toks@.len(),
            2 <= n,
            kv@ == key@,
            tv == toks.deep_view(),
            tv.len() == toks@.len(),
            kv_lookup(tv, key@) == kv_lookup(tv.skip(i as int), key@),
        decreases toks@.len() - i,
    {
        proof {
            assert(tv.skip(i as int)[0] == tv[i as int]);
            assert(tv.skip(i as int)[1] == tv[i as int + 1]);
            assert(tv.skip(i as int).drop_first() =~= tv.skip(i as int + 1));
        }
        let t0 = lower_chars(&strip_quotes_chars(&chars_of(toks[i].as_str())));
        if eq_chars(&t0, &kv) {
            let v = strip_quotes_chars(&chars_of(toks[i + 1].as_str()));
            return Some(string_from_chars(&v));
        }
        i += 1;
    }
    proof {
        assert(tv.skip(i as int).len() < 2);
    }
    None
}

/// The identifier and install directory a per-app manifest yields: the
/// unquoted values of the `appid` and `installdir` keys, matched
/// case-insensitively; a manifest missing either, or with either empty, is
/// skipped.
pub open spec fn appmanifest_spec(content: Seq<char>) -> Option<(Seq<char>, Seq<char>)> {
    let toks = tokens(content, false);
    match (kv_lookup(toks, "appid"@), kv_lookup(toks, "installdir"@)) {
        (Option::Some(a), Option::Some(d)) => if a.len() > 0 && d.len() > 0 {
            Option::Some((a, d))
        } else {
            Option::None
        },
        _ => Option::None,
    }
}

/// Parses one per-app manifest into its `(appid, installdir)` pair.
pub fn parse_appmanifest(content: &str) -> (r: Option<(String, String)>)
    ensures
        match r {
            Some(p) => appmanifest_spec(content@) == Option::Some((p.0@, p.1@)),
            None => appmanifest_spec(content@) is None,
        },
{
    let cv = chars_of(content);
    let toks = split_tokens(&cv, false);
    let appid = kv_lookup_exec(&toks, "appid");
    let installdir = kv_lookup_exec(&toks, "installdir");
    match (appid, installdir) {
        (Some(a), Some(d)) => {
            if a.as_str().unicode_len() > 0 && d.as_str().unicode_len() > 0 {
                Some((a, d))
            } else {
                None
            }
        },
        _ => None,
    }
}

/// A line with its trailing carriage return removed.
pub open spec fn strip_cr(l: Seq<char>) -> Seq<char> {
    if l.len() > 0 && l.last() == '\r' {
        l.drop_last()
    } else {
        l
    }
}

/// The lines of a text: split at `\n`, each line losing a trailing `\r`; a
/// final fragment without a terminator is a line of its own, and a trailing
/// terminator adds no empty line.
pub open spec fn split_lines(s: Seq<char>) -> Seq<Seq<char>>
    decreases s.len(),
{
    if s.len() == 0 {
        Seq::empty()
    } else {
        match find_char_from(s, '\n', 0) {
            Option::None => seq![s],
            Option::Some(i) => seq![strip_cr(s.subrange(0, i))] + split_lines(s.skip(i + 1)),
        }
    }
}

/// Splits a text into lines.
fn split_lines_exec(v: &Vec<char>) -> (r: Vec<String>)
    ensures
        r.deep_view() == split_lines(v@),
    decreases v@.len(),
{
    let n: usize = v.len();
    let mut out: Vec<String> = Vec::new();
    if n == 0 {
        proof {
            assert(out.deep_view() =~= Seq::<Seq<char>>::empty());
        }
        return out;
    }
    match find_char(v, '\n', 0) {
        Option::None => {
            let line = string_from_chars(&sub_chars(v, 0, n));
            push_name(&mut out, &line);
            proof {
                assert(v@.subrange(0, n as int) =~= v@);
                assert(out.deep_view() =~= seq![v@]);
            }
            out
        },
        Option::Some(i) => {
            let mut line = sub_chars(v, 0, i);
            if line.len() > 0 && line[line.len() - 1] == '\r' {
                let ghost lv = line@;
                let _c = line.pop();
                proof {
                    assert(line@ =~= lv.drop_last());
                }
            }
            assert(line@ == strip_cr(v@.subrange(0, i as int)));
            let line_s = string_from_chars(&line);
            push_name(&mut out, &line_s);
            let rest = sub_chars(v, i + 1, n);
            let tail = split_lines_exec(&rest);
            let ghost pre = out.deep_view();
            let mut t = tail;
            let mut k: usize = 0;
            while k < t.len()
                invariant
                    k <= t@.len(),
                    t.deep_view() == split_lines(v@.skip(i as int + 1)),
                    out.deep_view() == pre + t.deep_view().take(k as int),
                decreases t@.len() - k,
            {
                push_name(&mut out, &t[k]);
                proof {
                    assert(t.deep_view().take(k as int + 1) =~= t.deep_view().take(k as int).push(
                        t.deep_view()[k as int],
                    ));
                }
                k += 1;
            }
            proof {
                assert(t.deep_view().take(t.deep_view().len() as int) =~= t.deep_view());
                assert(out.deep_view() =~= seq![strip_cr(v@.subrange(0, i as int))] + split_lines(
                    v@.skip(i as int + 1),
                ));
            }
            out
        },
    }
}

/// Scans one line's quoted tokens: once a token equal (case-insensitively)
/// to `path` has been seen, the next quoted token is the value.
pub open spec fn path_value_scan(s: Seq<char>, found: bool) -> Option<Seq<char>>
    decreases s.len(),
{
    match find_char_from(s, '"', 0) {
        Option::None => Option::None,
        Option::Some(i) => match find_char_from(s, '"', i + 1) {
            Option::None => Option::None,
            Option::Some(j) => {
                let tok = s.subrange(i + 1, j);
                if found {
                    Option::Some(tok)
                } else {
                    path_value_scan(s.skip(j + 1), lower(tok) == "path"@)
                }
            },
        },
    }
}

/// Scans one line for its `path` value.
fn path_value_scan_exec(v: &Vec<char>, found: bool) -> (r: Option<Vec<char>>)
    ensures
        match r {
            Some(t) => path_value_scan(v@, found) == Option::Some(t@),
            None => path_value_scan(v@, found) is None,
        },
    decreases v@.len(),
{
    let n: usize = v.len();
    match find_char(v, '"', 0) {
        Option::None => Option::None,
        Option::Some(i) => match find_char(v, '"', i + 1) {
            Option::None => Option::None,
            Option::Some(j) => {
                let tok = sub_chars(v, i + 1, j);
                if found {
                    Option::Some(tok)
                } else {
                    let key = lower_chars(&tok);
                    let is_path = eq_chars(&key, &chars_of("path"));
                    let rest = sub_chars(v, j + 1, n);
                    path_value_scan_exec(&rest, is_path)
                }
            },
        },
    }
}

/// Doubled backslashes collapse to single ones, scanning left to right.
pub open spec fn unescape_bs(s: Seq<char>) -> Seq<char>
    decreases s.len(),
{
    if s.len() >= 2 && s[0] == '\\' && s[1] == '\\' {
        seq!['\\'] + unescape_bs(s.skip(2))
    } else if s.len() >= 1 {
        seq![s[0]] + unescape_bs(s.skip(1))
    } else {
        Seq::empty()
    }
}

/// Collapses the manifest's doubled backslashes.
fn unescape_bs_exec(v: &Vec<char>) -> (r: Vec<char>)
    ensures
        r@ == unescape_bs(v@),
    decreases v@.len(),
{
    let n: usize = v.len();
    if n >= 2 && v[0] == '\\' && v[1] == '\\' {
        let rest = sub_chars(v, 2, n);
        let tail = unescape_bs_exec(&rest);
        let mut r: Vec<char> = Vec::new();
        r.push('\\');
        crate::text::append_chars(&mut r, &tail);
        proof {
            assert(r@ =~= seq!['\\'] + unescape_bs(v@.skip(2)));
        }
        r
    } else if n >= 1 {
        let rest = sub_chars(v, 1, n);
        let tail = unescape_bs_exec(&rest);
        let mut r: Vec<char> = Vec::new();
        let c0 = v[0];
        r.push(c0);
        crate::text::append_chars(&mut r, &tail);
        proof {
            assert(r@ =~= seq![v@[0]] + unescape_bs(v@.skip(1)));
        }
        r
    } else {
        let r: Vec<char> = Vec::new();
        proof {
            assert(r@ =~= unescape_bs(v@));
        }
        r
    }
}

/// The `path` value one line contributes, unescaped.
pub open spec fn line_path_value(line: Seq<char>) -> Option<Seq<char>> {
    match path_value_scan(line, false) {
        Option::Some(t) => Option::Some(unescape_bs(t)),
        Option::None => Option::None,
    }
}

/// The library paths the manifest's lines yield, in order.
pub open spec fn vdf_paths(lines: Seq<Seq<char>>) -> Seq<Seq<char>>
    decreases lines.len(),
{
    if lines.len() == 0 {
        Seq::empty()
    } else {
        vdf_paths(lines.drop_last()) + match line_path_value(lines.last()) {
            Option::Some(p) => seq![p],
            Option::None => Seq::<Seq<char>>::empty(),
        }
    }
}

/// The library-folders manifest's result: its `path` values in order, or
/// nothing when no line yields one.
pub open spec fn libraryfolders_spec(content: Seq<char>) -> Option<Seq<Seq<char>>> {
    let ps = vdf_paths(split_lines(content));
    if ps.len() == 0 {
        Option::None
    } else {
        Option::Some(ps)
    }
}

/// Parses the library-folders manifest: every line's quoted `path` value,
/// with escaped backslashes collapsed; a manifest yielding no paths parses
/// to nothing. Whether each path exists on disk is the caller's concern.
pub fn parse_libraryfolders_vdf(content: &str) -> (r: Option<Vec<String>>)
    ensures
        match r {
            Some(v) => libraryfolders_spec(content@) == Option::Some(v.deep_view()),
            None => libraryfolders_spec(content@) is None,
        },
{
    let cv = chars_of(content);
    let lines = split_lines_exec(&cv);
    let ghost lv = lines.deep_view();
    let mut out: Vec<String> = Vec::new();
    let mut i: usize = 0;
    while i < lines.len()
        invariant
            i <= lines@.len(),
            lv == lines.deep_view(),
            lv.len() == lines@.len(),
            out.deep_view() == vdf_paths(lv.take(i as int)),
        decreases lines@.len() - i,
    {
        proof {
            assert(lv.take(i as int + 1).drop_last() =~= lv.take(i as int));
            assert(lv.take(i as int + 1).last() == lv[i as int]);
        }
        let line = chars_of(lines[i].as_str());
        match path_value_scan_exec(&line, false) {
            Some(t) => {
                let p = string_from_chars(&unescape_bs_exec(&t));
                push_name(&mut out, &p);
                proof {
                    assert(out.deep_view() =~= vdf_paths(lv.take(i as int)) + seq![
                        unescape_bs(path_value_scan(lv[i as int], false).unwrap()),
                    ]);
                }
            },
            None => {
                proof {
                    assert(out.deep_view() =~= vdf_paths(lv.take(i as int))
                        + Seq::<Seq<char>>::empty());
                }
            },
        }
        i += 1;
    }
    proof {
        assert(lv.take(lv.len() as int) =~= lv);
    }
    if out.len() == 0 {
        None
    } else {
        Some(out)
    }
}

/// The components of a path: its separator-free runs, either separator
/// convention accepted, empty runs dropped.
pub open spec fn path_components(s: Seq<char>) -> Seq<Seq<char>> {
    tokens(s, true)
}

/// One path is a component-wise prefix of another.
pub open spec fn is_path_prefix(p: Seq<char>, q: Seq<char>) -> bool {
    path_components(p).is_prefix_of(path_components(q))
}

/// True when `p` is a component-wise prefix of `q`.
pub fn path_is_prefix(p: &str, q: &str) -> (r: bool)
    ensures
        r == is_path_prefix(p@, q@),
{
    let pc = split_tokens(&chars_of(p), true);
    let qc = split_tokens(&chars_of(q), true);
    if pc.len() > qc.len() {
        return false;
    }
    let mut i: usize = 0;
    while i < pc.len()
        invariant
            i <= pc@.len(),
            pc@.len() <= qc@.len(),
            pc.deep_view() == path_components(p@),
            qc.deep_view() == path_components(q@),
            forall|j: int| 0 <= j < i ==> pc.deep_view()[j] == qc.deep_view()[j],
        decreases pc@.len() - i,
    {
        let a = chars_of(pc[i].as_str());
        let b = chars_of(qc[i].as_str());
        if !eq_chars(&a, &b) {
            assert(pc.deep_view()[i as int] != qc.deep_view()[i as int]);
            assert(!is_path_prefix(p@, q@)) by {
                if path_components(p@).is_prefix_of(path_components(q@)) {
                    assert(path_components(q@).subrange(
                        0,
                        path_components(p@).len() as int,
                    )[i as int] == path_components(q@)[i as int]);
                }
            }
            return false;
        }
        i += 1;
    }
    assert(pc.deep_view() =~= qc.deep_view().subrange(0, pc.deep_view().len() as int));
    true
}

/// Number of components of a path.
pub fn component_count(p: &str) -> (r: usize)
    ensures
        r == path_components(p@).len(),
{
    let pc = split_tokens(&chars_of(p), true);
    pc.len()
}

/// Index of the first map entry with this key, searching from `from`.
pub open spec fn find_key_from(m: Seq<(Seq<char>, Seq<char>)>, k: Seq<char>, from: int) -> Option<
    int,
>
    decreases m.len() - from,
{
    if from < 0 || from >= m.len() {
        Option::None
    } else if m[from].0 == k {
        Option::Some(from)
    } else {
        find_key_from(m, k, from + 1)
    }
}

/// Inserting into the map: an existing key's value is replaced in place, a
/// new key is appended.
pub open spec fn upsert(m: Seq<(Seq<char>, Seq<char>)>, k: Seq<char>, v: Seq<char>) -> Seq<
    (Seq<char>, Seq<char>),
> {
    match find_key_from(m, k, 0) {
        Option::Some(i) => m.update(i, (k, v)),
        Option::None => m.push((k, v)),
    }
}

/// The map built from `(appid, install path)` entries in parse order: each
/// install path maps to one identifier, the last parsed entry winning.
pub open spec fn build_map_spec(entries: Seq<(Seq<char>, Seq<char>)>) -> Seq<
    (Seq<char>, Seq<char>),
>
    decreases entries.len(),
{
    if entries.len() == 0 {
        Seq::empty()
    } else {
        upsert(build_map_spec(entries.drop_last()), entries.last().1, entries.last().0)
    }
}

/// Builds the install-path-to-identifier map from parsed `(appid,
/// install path)` entries; a duplicated install path keeps the last
/// identifier parsed.
pub fn build_path_to_appid_map(entries: &Vec<(String, String)>) -> (r: Vec<(String, String)>)
    ensures
        r.deep_view() == build_map_spec(entries.deep_view()),
{
    let ghost ev = entries.deep_view();
    let mut out: Vec<(String, String)> = Vec::new();
    let mut i: usize = 0;
    while i < entries.len()
        invariant
            i <= entries@.len(),
            ev == entries.deep_view(),
            ev.len() == entries@.len(),
            out.deep_view() == build_map_spec(ev.take(i as int)),
        decreases entries@.len() - i,
    {
        proof {
            assert(ev.take(i as int + 1).drop_last() =~= ev.take(i as int));
            assert(ev.take(i as int + 1).last() == ev[i as int]);
        }
        let path = entries[i].1.clone();
        let appid = entries[i].0.clone();
        let ghost before = out.deep_view();
        let pv = chars_of(path.as_str());
        proof {
            assert(before.skip(0) =~= before);
        }
        let mut at: Option<usize> = None;
        let mut j: usize = 0;
        while at.is_none() && j < out.len()
            invariant
                j <= out@.len(),
                before == out.deep_view(),
                pv@ == ev[i as int].1,
                i < ev.len(),
                at matches Some(j2) ==> find_key_from(before, ev[i as int].1, 0) == Option::Some(
                    j2 as int,
                ) && j2 < out@.len(),
                at is None ==> find_key_from(before, ev[i as int].1, 0) == find_key_from(
                    before,
                    ev[i as int].1,
                    j as int,
                ),
            decreases out@.len() - j + (if at is Some {
                0int
            } else {
                1int
            }),
        {
            let kj = chars_of(out[j].0.as_str());
            if eq_chars(&kj, &pv) {
                assert(before[j as int].0 == ev[i as int].1);
                assert(find_key_from(before, ev[i as int].1, j as int) == Option::Some(j as int));
                at = Some(j);
            } else {
                assert(before[j as int].0 != ev[i as int].1);
                assert(find_key_from(before, ev[i as int].1, j as int) == find_key_from(
                    before,
                    ev[i as int].1,
                    j as int + 1,
                ));
                j += 1;
            }
        }
        match at {
            Some(j2) => {
                proof {
                    assert(find_key_from(before, ev[i as int].1, 0) == Option::Some(j2 as int));
                }
                let _old = out.remove(j2);
                out.insert(j2, (path, appid));
                proof {
                    assert(out.deep_view() =~= before.update(
                        j2 as int,
                        (ev[i as int].1, ev[i as int].0),
                    ));
                }
            },
            None => {
                proof {
                    assert(find_key_from(before, ev[i as int].1, 0) is None);
                }
                out.push((path, appid));
                proof {
                    assert(out.deep_view() =~= before.push((ev[i as int].1, ev[i as int].0)));
                }
            },
        }
        i += 1;
    }
    proof {
        assert(ev.take(ev.len() as int) =~= ev);
    }
    out
}

/// Each install path maps to at most one identifier: the built map's keys
/// are pairwise distinct.
pub proof fn lemma_build_map_unique(entries: Seq<(Seq<char>, Seq<char>)>)
    ensures
        forall|i: int, j: int|
            0 <= i < j < build_map_spec(entries).len() ==> build_map_spec(entries)[i].0
                != build_map_spec(entries)[j].0,
    decreases entries.len(),
{
    if entries.len() > 0 {
        lemma_build_map_unique(entries.drop_last());
        let m = build_map_spec(entries.drop_last());
        let k = entries.last().1;
        let v = entries.last().0;
        lemma_find_key_props(m, k, 0);
        match find_key_from(m, k, 0) {
            Option::Some(x) => {
                assert forall|i: int, j: int|
                    0 <= i < j < m.update(x, (k, v)).len() implies m.update(x, (k, v))[i].0
                    != m.update(x, (k, v))[j].0 by {
                    assert(m[x].0 == k);
                }
            },
            Option::None => {
                assert forall|i: int, j: int|
                    0 <= i < j < m.push((k, v)).len() implies m.push((k, v))[i].0 != m.push(
                    (k, v),
                )[j].0 by {
                    if j == m.len() {
                        assert(m.push((k, v))[i] == m[i]);
                    }
                }
            },
        }
    }
}

/// What a found key index means.
proof fn lemma_find_key_props(m: Seq<(Seq<char>, Seq<char>)>, k: Seq<char>, from: int)
    requires
        0 <= from,
    ensures
        match find_key_from(m, k, from) {
            Option::Some(i) => from <= i < m.len() && m[i].0 == k && forall|j: int|
                from <= j < i ==> m[j].0 != k,
            Option::None => forall|j: int| from <= j < m.len() ==> m[j].0 != k,
        },
    decreases m.len() - from,
{
    if from < m.len() && m[from].0 != k {
        lemma_find_key_props(m, k, from + 1);
    }
}

/// The best match so far, scanning the map from `i`: an entry whose key is
/// a component prefix of the path and has strictly more components than the
/// best one beats it; the first of equals wins.
pub open spec fn best_from(
    m: Seq<(Seq<char>, Seq<char>)>,
    norm: Seq<char>,
    i: int,
    best: Option<int>,
) -> Option<int>
    decreases m.len() - i,
{
    if i < 0 || i >= m.len() {
        best
    } else {
        let cnt = path_components(m[i].0).len();
        let better = is_path_prefix(m[i].0, norm) && (match best {
            Option::None => cnt > 0,
            Option::Some(b) => cnt > path_components(m[b].0).len(),
        });
        best_from(
            m,
            norm,
            i + 1,
            if better {
                Option::Some(i)
            } else {
                best
            },
        )
    }
}

/// The identifier the map resolves a normalized path to: the value of the
/// longest install-path prefix, if any.
pub open spec fn resolve_appid_spec(m: Seq<(Seq<char>, Seq<char>)>, norm: Seq<char>) -> Option<
    Seq<char>,
> {
    match best_from(m, norm, 0, Option::None) {
        Option::Some(i) => Option::Some(m[i].1),
        Option::None => Option::None,
    }
}

/// Resolves a game path against the install-path map: environment tokens in
/// the path are expanded, and the entry with the longest component-wise
/// prefix wins; among equals the first entry wins.
pub fn resolve_steam_app_id(
    path_to_appid: &Vec<(String, String)>,
    game_path: &str,
    env: &Vec<(String, String)>,
) -> (r: Option<String>)
    ensures
        match r {
            Some(id) => resolve_appid_spec(
                path_to_appid.deep_view(),
                expand_known_vars(game_path@, env.deep_view()),
            ) == Option::Some(id@),
            None => resolve_appid_spec(
                path_to_appid.deep_view(),
                expand_known_vars(game_path@, env.deep_view()),
            ) is None,
        },
{
    let normalized = normalize_path(game_path, env);
    let ghost mv = path_to_appid.deep_view();
    let ghost norm = expand_known_vars(game_path@, env.deep_view());
    let mut best: Option<usize> = None;
    let mut best_count: usize = 0;
    let mut i: usize = 0;
    while i < path_to_appid.len()
        invariant
            i <= path_to_appid@.len(),
            mv == path_to_appid.deep_view(),
            mv.len() == path_to_appid@.len(),
            normalized@ == norm,
            best_from(mv, norm, 0, Option::None) == best_from(
                mv,
                norm,
                i as int,
                match best {
                    Some(b) => Option::Some(b as int),
                    None => Option::None,
                },
            ),
            match best {
                Some(b) => b < i && best_count == path_components(mv[b as int].0).len()
                    && best_count > 0,
                None => true,
            },
        decreases path_to_appid@.len() - i,
    {
        let key: &String = &path_to_appid[i].0;
        proof {
            assert(mv[i as int] == (path_to_appid@[i as int].0@, path_to_appid@[i as int].1@));
        }
        let cnt = component_count(key.as_str());
        let is_pref = path_is_prefix(key.as_str(), normalized.as_str());
        let better: bool = is_pref && (match best {
            Some(_) => cnt > best_count,
            None => cnt > 0,
        });
        if better {
            best = Some(i);
            best_count = cnt;
        }
        i += 1;
    }
    match best {
        Some(b) => {
            proof {
                assert(best_from(mv, norm, 0, Option::None) == Option::Some(b as int));
            }
            Some(path_to_appid[b].1.clone())
        },
        None => None,
    }
}

/// The identifier the first resolvable registered path yields.
pub open spec fn resolve_game_spec(
    m: Seq<(Seq<char>, Seq<char>)>,
    paths: Seq<Seq<char>>,
    env: Seq<(Seq<char>, Seq<char>)>,
) -> Option<Seq<char>>
    decreases paths.len(),
{
    if paths.len() == 0 {
        Option::None
    } else {
        match resolve_appid_spec(m, expand_known_vars(paths[0], env)) {
            Option::Some(id) => Option::Some(id),
            Option::None => resolve_game_spec(m, paths.drop_first(), env),
        }
    }
}

/// Resolves a game's identifier from its registered paths: the first path
/// lying under a mapped install directory decides.
pub fn resolve_app_id_for_game(
    path_to_appid: &Vec<(String, String)>,
    game_paths: &Vec<String>,
    env: &Vec<(String, String)>,
) -> (r: Option<String>)
    ensures
        match r {
            Some(id) => resolve_game_spec(
                path_to_appid.deep_view(),
                game_paths.deep_view(),
                env.deep_view(),
            ) == Option::Some(id@),
            None => resolve_game_spec(
                path_to_appid.deep_view(),
                game_paths.deep_view(),
                env.deep_view(),
            ) is None,
        },
{
    let ghost pv = game_paths.deep_view();
    proof {
        assert(pv.skip(0) =~= pv);
    }
    let mut i: usize = 0;
    while i < game_paths.len()
        invariant
            i <= game_paths@.len(),
            pv == game_paths.deep_view(),
            pv.len() == game_paths@.len(),
            resolve_game_spec(path_to_appid.deep_view(), pv, env.deep_view())
                == resolve_game_spec(path_to_appid.deep_view(), pv.skip(i as int), env.deep_view()),
        decreases game_paths@.len() - i,
    {
        proof {
            assert(pv.skip(i as int)[0] == pv[i as int]);
            assert(pv.skip(i as int).drop_first() =~= pv.skip(i as int + 1));
        }
        match resolve_steam_app_id(path_to_appid, game_paths[i].as_str(), env) {
            Some(id) => {
                return Some(id);
            },
            None => {},
        }
        i += 1;
    }
    proof {
        assert(pv.skip(pv.len() as int) =~= Seq::<Seq<char>>::empty());
    }
    None
}

/// The platform kind a path-candidate list is built for.
pub enum OsKind {
    Windows,
    Linux,
    MacOs,
}

/// The conventional install-root candidates, in the order they are probed:
/// on Windows the registry-reported path (when one was read) before the two
/// conventional locations; elsewhere under the home directory.
pub fn steam_path_candidates(os: &OsKind, registry: &Option<String>, home: &Option<String>) -> (r:
    Vec<String>)
    ensures
        r.deep_view() == steam_candidates_spec(*os, registry.deep_view(), home.deep_view()),
{
    let mut r: Vec<String> = Vec::new();
    proof {
        assert(r.deep_view() =~= Seq::<Seq<char>>::empty());
    }
    match os {
        OsKind::Windows => {
            match registry {
                Some(p) => {
                    push_name(&mut r, p);
                },
                None => {},
            }
            push_name(&mut r, &("C:\\Program Files (x86)\\Steam".to_owned()));
            push_name(&mut r, &("C:\\Program Files\\Steam".to_owned()));
        },
        OsKind::Linux => {
            match home {
                Some(h) => {
                    push_name(&mut r, &crate::text::join2(h.as_str(), "/.steam/steam"));
                    push_name(&mut r, &crate::text::join2(h.as_str(), "/.local/share/Steam"));
                },
                None => {},
            }
        },
        OsKind::MacOs => {
            match home {
                Some(h) => {
                    push_name(
                        &mut r,
                        &crate::text::join2(h.as_str(), "/Library/Application Support/Steam"),
                    );
                },
                None => {},
            }
        },
    }
    proof {
        assert(r.deep_view() =~= steam_candidates_spec(*os, registry.deep_view(), home.deep_view()));
    }
    r
}

/// The install-root candidate list, per platform.
pub open spec fn steam_candidates_spec(
    os: OsKind,
    registry: Option<Seq<char>>,
    home: Option<Seq<char>>,
) -> Seq<Seq<char>> {
    match os {
        OsKind::Windows => (match registry {
            Option::Some(p) => seq![p],
            Option::None => Seq::<Seq<char>>::empty(),
        }) + seq!["C:\\Program Files (x86)\\Steam"@, "C:\\Program Files\\Steam"@],
        OsKind::Linux => match home {
            Option::Some(h) => seq![h + "/.steam/steam"@, h + "/.local/share/Steam"@],
            Option::None => Seq::empty(),
        },
        OsKind::MacOs => match home {
            Option::Some(h) => seq![h + "/Library/Application Support/Steam"@],
            Option::None => Seq::empty(),
        },
    }
}

/// The library roots the manifest texts yield: the first text that parses
/// decides; with none, the install root itself is the sole library when its
/// apps directory exists, else there are none.
pub open spec fn read_lib_paths_spec(
    contents: Seq<Seq<char>>,
    root: Seq<char>,
    root_has_steamapps: bool,
) -> Seq<Seq<char>>
    decreases contents.len(),
{
    if contents.len() == 0 {
        if root_has_steamapps {
            seq![root]
        } else {
            Seq::empty()
        }
    } else {
        match libraryfolders_spec(contents[0]) {
            Option::Some(ps) => ps,
            Option::None => read_lib_paths_spec(contents.drop_first(), root, root_has_steamapps),
        }
    }
}

/// Reads the library roots out of the candidate manifest texts, in order,
/// falling back to the install root itself when it has an apps directory.
pub fn read_library_paths(
    contents: &Vec<String>,
    steam_root: &str,
    root_has_steamapps: bool,
) -> (r: Vec<String>)
    ensures
        r.deep_view() == read_lib_paths_spec(contents.deep_view(), steam_root@, root_has_steamapps),
{
    let ghost cv = contents.deep_view();
    proof {
        assert(cv.skip(0) =~= cv);
    }
    let mut i: usize = 0;
    while i < contents.len()
        invariant
            i <= contents@.len(),
            cv == contents.deep_view(),
            cv.len() == contents@.len(),
            read_lib_paths_spec(cv, steam_root@, root_has_steamapps) == read_lib_paths_spec(
                cv.skip(i as int),
                steam_root@,
                root_has_steamapps,
            ),
        decreases contents@.len() - i,
    {
        proof {
            assert(cv.skip(i as int)[0] == cv[i as int]);
            assert(cv.skip(i as int).drop_first() =~= cv.skip(i as int + 1));
        }
        match parse_libraryfolders_vdf(contents[i].as_str()) {
            Some(paths) => {
                return paths;
            },
            None => {},
        }
        i += 1;
    }
    proof {
        assert(cv.skip(cv.len() as int) =~= Seq::<Seq<char>>::empty());
    }
    if root_has_steamapps {
        let mut r: Vec<String> = Vec::new();
        push_name(&mut r, &steam_root.to_owned());
        proof {
            assert(r.deep_view() =~= seq![steam_root@]);
        }
        r
    } else {
        let r: Vec<String> = Vec::new();
        proof {
            assert(r.deep_view() =~= Seq::<Seq<char>>::empty());
        }
        r
    }
}

/// The library paths kept after dropping the install root itself, compared
/// lower-cased.
pub open spec fn keep_not_root(paths: Seq<Seq<char>>, root: Seq<char>) -> Seq<Seq<char>>
    decreases paths.len(),
{
    if paths.len() == 0 {
        Seq::empty()
    } else {
        keep_not_root(paths.drop_last(), root) + if lower(paths.last()) == lower(root) {
            Seq::<Seq<char>>::empty()
        } else {
            seq![paths.last()]
        }
    }
}

/// Drops the install root itself from a library list, so its own library is
/// not scanned twice.
pub fn filter_steam_root(paths: Vec<String>, root: &str) -> (r: Vec<String>)
    ensures
        r.deep_view() == keep_not_root(paths.deep_view(), root@),
{
    let target = lower_chars(&chars_of(root));
    let ghost pv = paths.deep_view();
    let mut out: Vec<String> = Vec::new();
    let mut rest = paths;
    let ghost mut done: int = 0;
    while rest.len() > 0
        invariant
            target@ == lower(root@),
            0 <= done,
            done + rest@.len() == pv.len(),
            rest.deep_view() =~= pv.skip(done),
            out.deep_view() == keep_not_root(pv.take(done), root@),
        decreases rest@.len(),
    {
        let ghost before = rest.deep_view();
        let p = rest.remove(0);
        proof {
            assert(before =~= seq![p@] + rest.deep_view());
            assert(p@ == pv[done]) by {
                assert(before[0] == p@);
                assert(pv.skip(done)[0] == pv[done]);
            }
            assert(rest.deep_view() =~= pv.skip(done + 1)) by {
                assert forall|k: int| 0 <= k < rest.deep_view().len() implies rest.deep_view()[k]
                    == pv.skip(done + 1)[k] by {
                    assert(before[k + 1] == rest.deep_view()[k]);
                    assert(before[k + 1] == pv.skip(done)[k + 1]);
                    assert(pv.skip(done)[k + 1] == pv[done + 1 + k]);
                }
            }
            assert(pv.take(done + 1).drop_last() =~= pv.take(done));
            assert(pv.take(done + 1).last() == pv[done]);
        }
        let lp = lower_chars(&chars_of(p.as_str()));
        if !eq_chars(&lp, &target) {
            push_name(&mut out, &p);
            proof {
                assert(out.deep_view() =~= keep_not_root(pv.take(done), root@) + seq![pv[done]]);
            }
        } else {
            proof {
                assert(out.deep_view() =~= keep_not_root(pv.take(done), root@)
                    + Seq::<Seq<char>>::empty());
            }
        }
        proof {
            done = done + 1;
        }
    }
    proof {
        assert(pv.take(pv.len() as int) =~= pv);
    }
    out
}

} // verus!
