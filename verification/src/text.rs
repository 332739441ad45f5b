//! Character-sequence utilities: case folding, affix and substring tests,
//! trimming, splitting and joining. Everything here works on `Vec<char>`
//! buffers whose views are the `Seq<char>` views of the strings they came
//! from, so the contracts of the rest of the crate can be stated directly
//! over string views.

use vstd::prelude::*;

verus! {

/// ASCII case folding of one character; other characters are unchanged.
pub open spec fn lower_char(c: char) -> char {
    if 'A' <= c && c <= 'Z' {
        ((c as u32) + 32) as char
    } else {
        c
    }
}

/// ASCII case folding of a whole sequence.
pub open spec fn lower(s: Seq<char>) -> Seq<char> {
    s.map_values(|c: char| lower_char(c))
}

/// ASCII whitespace, the characters `str::trim` removes from ASCII text.
pub open spec fn is_space(c: char) -> bool {
    c == ' ' || c == '\t' || c == '\n' || c == '\r'
}

/// Number of leading whitespace characters of `s`.
pub open spec fn leading_spaces(s: Seq<char>) -> int
    decreases s.len(),
{
    if s.len() > 0 && is_space(s[0]) {
        1 + leading_spaces(s.drop_first())
    } else {
        0
    }
}

/// `pat` occurs in `s` starting at position `i`.
pub open spec fn is_match_at(s: Seq<char>, pat: Seq<char>, i: int) -> bool {
    0 <= i && i + pat.len() <= s.len() && s.subrange(i, i + pat.len()) == pat
}

/// `pat` occurs somewhere in `s`.
pub open spec fn contains_seq(s: Seq<char>, pat: Seq<char>) -> bool {
    exists|i: int| is_match_at(s, pat, i)
}

/// `s` ends with `pat`.
pub open spec fn ends_with_spec(s: Seq<char>, pat: Seq<char>) -> bool {
    s.len() >= pat.len() && s.subrange(s.len() - pat.len(), s.len() as int) == pat
}

/// `s` starts with `pat`.
pub open spec fn starts_with_spec(s: Seq<char>, pat: Seq<char>) -> bool {
    s.len() >= pat.len() && s.subrange(0, pat.len() as int) == pat
}

/// The characters of `s`, as a buffer whose view equals `s@`.
pub fn chars_of(s: &str) -> (r: Vec<char>)
    ensures
        r@ == s@,
{
    let n: usize = s.unicode_len();
    let mut r: Vec<char> = Vec::new();
    let mut i: usize = 0;
    while i < n
        invariant
            i <= n,
            n == s@.len(),
            r@ == s@.take(i as int),
        decreases n - i,
    {
        let c = s.get_char(i);
        r.push(c);
        assert(s@.take(i as int + 1) =~= s@.take(i as int).push(s@[i as int]));
        i += 1;
    }
    assert(s@.take(n as int) =~= s@);
    r
}

/// Builds an owned string out of a character buffer.
///
/// Relies on `String`'s `FromIterator<char>` impl (`collect`), which appends
/// exactly the characters of the iterator in order.
#[verifier::external_body]
pub(crate) fn string_from_chars(v: &Vec<char>) -> (r: String)
    ensures
        r@ == v@,
{
    v.iter().collect()
}

/// ASCII case folding of one character.
pub fn to_lower_char(c: char) -> (r: char)
    ensures
        r == lower_char(c),
{
    if c >= 'A' && c <= 'Z' {
        (((c as u8) + 32) as char)
    } else {
        c
    }
}

/// ASCII case folding of a buffer.
pub fn lower_chars(v: &Vec<char>) -> (r: Vec<char>)
    ensures
        r@ == lower(v@),
{
    let mut r: Vec<char> = Vec::new();
    let mut i: usize = 0;
    while i < v.len()
        invariant
            i <= v.len(),
            r@.len() == i,
            forall|j: int| 0 <= j < i ==> r@[j] == lower_char(v@[j]),
        decreases v.len() - i,
    {
        let c = to_lower_char(v[i]);
        r.push(c);
        i += 1;
    }
    assert(r@ =~= lower(v@));
    r
}

/// True when `pat` occurs in `s` at position `i`.
pub fn matches_at(s: &Vec<char>, pat: &Vec<char>, i: usize) -> (r: bool)
    requires
        i + pat@.len() <= s@.len(),
    ensures
        r == is_match_at(s@, pat@, i as int),
{
    let n: usize = s.len();
    let mut j: usize = 0;
    while j < pat.len()
        invariant
            j <= pat@.len(),
            i + pat@.len() <= s@.len(),
            n == s@.len(),
            forall|k: int| 0 <= k < j ==> s@[i + k] == pat@[k],
        decreases pat@.len() - j,
    {
        if s[i + j] != pat[j] {
            assert(s@.subrange(i as int, i + pat@.len()) != pat@) by {
                assert(s@.subrange(i as int, i + pat@.len())[j as int] != pat@[j as int]);
            }
            return false;
        }
        j += 1;
    }
    assert(s@.subrange(i as int, i + pat@.len()) =~= pat@);
    true
}

/// Position of the first occurrence of `pat` in `s` at or after `start`.
pub fn find_from(s: &Vec<char>, pat: &Vec<char>, start: usize) -> (r: Option<usize>)
    ensures
        match r {
            Some(i) => start <= i && is_match_at(s@, pat@, i as int) && forall|k: int|
                start <= k < i ==> !is_match_at(s@, pat@, k),
            None => forall|k: int| start <= k ==> !is_match_at(s@, pat@, k),
        },
{
    if pat.len() > s.len() {
        assert(forall|k: int| start <= k ==> !is_match_at(s@, pat@, k));
        return None;
    }
    if pat.len() == 0 {
        if start <= s.len() {
            assert(is_match_at(s@, pat@, start as int)) by {
                assert(s@.subrange(start as int, start as int) =~= pat@);
            }
            return Some(start);
        }
        return None;
    }
    let n: usize = s.len();
    let last: usize = n - pat.len();
    if start > last {
        return None;
    }
    let mut i: usize = start;
    while i <= last
        invariant
            0 < pat@.len() <= s@.len(),
            n == s@.len(),
            last == s@.len() - pat@.len(),
            start <= i <= last + 1,
            forall|k: int| start <= k < i ==> !is_match_at(s@, pat@, k),
        decreases last + 1 - i,
    {
        if matches_at(s, pat, i) {
            return Some(i);
        }
        i += 1;
    }
    assert(forall|k: int| k > last ==> !is_match_at(s@, pat@, k));
    None
}

/// True when `pat` occurs somewhere in `s`.
pub fn contains_chars(s: &Vec<char>, pat: &Vec<char>) -> (r: bool)
    ensures
        r == contains_seq(s@, pat@),
{
    match find_from(s, pat, 0) {
        Some(i) => {
            assert(is_match_at(s@, pat@, i as int));
            true
        },
        None => {
            assert(forall|k: int| !is_match_at(s@, pat@, k)) by {
                assert(forall|k: int| k < 0 ==> !is_match_at(s@, pat@, k));
            }
            false
        },
    }
}

/// True when `s` ends with `pat`.
pub fn ends_with_chars(s: &Vec<char>, pat: &Vec<char>) -> (r: bool)
    ensures
        r == ends_with_spec(s@, pat@),
{
    if pat.len() > s.len() {
        return false;
    }
    let off: usize = s.len() - pat.len();
    let r = matches_at(s, pat, off);
    assert(s@.subrange(off as int, off + pat@.len()) =~= s@.subrange(
        s@.len() - pat@.len(),
        s@.len() as int,
    ));
    r
}

/// True when `s` starts with `pat`.
pub fn starts_with_chars(s: &Vec<char>, pat: &Vec<char>) -> (r: bool)
    ensures
        r == starts_with_spec(s@, pat@),
{
    if pat.len() > s.len() {
        return false;
    }
    matches_at(s, pat, 0)
}

/// The delimiter class used when splitting: path separators, or ASCII
/// whitespace.
pub open spec fn is_delim(c: char, seps: bool) -> bool {
    if seps {
        c == '/' || c == '\\'
    } else {
        is_space(c)
    }
}

/// Number of leading delimiters of `s`.
pub open spec fn lead_delims(s: Seq<char>, seps: bool) -> int
    decreases s.len(),
{
    if s.len() > 0 && is_delim(s[0], seps) {
        1 + lead_delims(s.drop_first(), seps)
    } else {
        0
    }
}

/// Length of the maximal delimiter-free prefix of `s`.
pub open spec fn token_len(s: Seq<char>, seps: bool) -> int
    decreases s.len(),
{
    if s.len() > 0 && !is_delim(s[0], seps) {
        1 + token_len(s.drop_first(), seps)
    } else {
        0
    }
}

/// `lead_delims` counts the maximal delimiter prefix.
pub proof fn lemma_lead_delims(s: Seq<char>, seps: bool, l: int)
    requires
        0 <= l <= s.len(),
        forall|j: int| 0 <= j < l ==> is_delim(s[j], seps),
        l == s.len() || !is_delim(s[l], seps),
    ensures
        lead_delims(s, seps) == l,
    decreases s.len(),
{
    if s.len() > 0 && is_delim(s[0], seps) {
        lemma_lead_delims(s.drop_first(), seps, l - 1);
    }
}

/// `token_len` counts the maximal delimiter-free prefix.
pub proof fn lemma_token_len(s: Seq<char>, seps: bool, l: int)
    requires
        0 <= l <= s.len(),
        forall|j: int| 0 <= j < l ==> !is_delim(s[j], seps),
        l == s.len() || is_delim(s[l], seps),
    ensures
        token_len(s, seps) == l,
    decreases s.len(),
{
    if s.len() > 0 && !is_delim(s[0], seps) {
        lemma_token_len(s.drop_first(), seps, l - 1);
    }
}

/// Bounds of `lead_delims`.
pub proof fn lemma_lead_delims_bounds(s: Seq<char>, seps: bool)
    ensures
        0 <= lead_delims(s, seps) <= s.len(),
    decreases s.len(),
{
    if s.len() > 0 && is_delim(s[0], seps) {
        lemma_lead_delims_bounds(s.drop_first(), seps);
    }
}

/// Bounds of `token_len`.
pub proof fn lemma_token_len_bounds(s: Seq<char>, seps: bool)
    ensures
        0 <= token_len(s, seps) <= s.len(),
    decreases s.len(),
{
    if s.len() > 0 && !is_delim(s[0], seps) {
        lemma_token_len_bounds(s.drop_first(), seps);
    }
}

/// The maximal delimiter-free runs of `s`, in order; delimiter runs between
/// and around them are dropped.
pub open spec fn tokens(s: Seq<char>, seps: bool) -> Seq<Seq<char>>
    decreases s.len(),
    via tokens_dec
{
    let t = s.skip(lead_delims(s, seps));
    if t.len() == 0 {
        Seq::empty()
    } else {
        seq![t.subrange(0, token_len(t, seps))] + tokens(t.skip(token_len(t, seps)), seps)
    }
}

#[via_fn]
proof fn tokens_dec(s: Seq<char>, seps: bool) {
    lemma_lead_delims_bounds(s, seps);
    let t = s.skip(lead_delims(s, seps));
    lemma_token_len_bounds(t, seps);
    if t.len() > 0 {
        assert(!is_delim(t[0], seps)) by {
            lemma_lead_delims_at(s, seps);
        }
        lemma_token_len_bounds(t.drop_first(), seps);
        assert(token_len(t, seps) >= 1);
    }
}

/// The character right after the delimiter prefix is no delimiter.
pub proof fn lemma_lead_delims_at(s: Seq<char>, seps: bool)
    ensures
        lead_delims(s, seps) < s.len() ==> !is_delim(s[lead_delims(s, seps)], seps),
        0 <= lead_delims(s, seps) <= s.len(),
    decreases s.len(),
{
    lemma_lead_delims_bounds(s, seps);
    if s.len() > 0 && is_delim(s[0], seps) {
        lemma_lead_delims_at(s.drop_first(), seps);
    }
}

/// Splits `v` into its delimiter-free runs.
pub fn split_tokens(v: &Vec<char>, seps: bool) -> (r: Vec<String>)
    ensures
        r.deep_view() == tokens(v@, seps),
{
    let n: usize = v.len();
    let mut out: Vec<String> = Vec::new();
    let mut pos: usize = 0;
    proof {
        assert(v@.skip(0) =~= v@);
        assert(out.deep_view() =~= Seq::<Seq<char>>::empty());
    }
    while pos < n
        invariant
            pos <= n,
            n == v@.len(),
            tokens(v@, seps) == out.deep_view() + tokens(v@.skip(pos as int), seps),
        decreases n - pos,
    {
        let mut p2: usize = pos;
        while p2 < n && is_delim_char(v[p2], seps)
            invariant
                pos <= p2 <= n,
                n == v@.len(),
                forall|j: int| pos <= j < p2 ==> is_delim(v@[j], seps),
            decreases n - p2,
        {
            p2 += 1;
        }
        proof {
            lemma_lead_delims(v@.skip(pos as int), seps, p2 - pos);
            assert(v@.skip(pos as int).skip(p2 - pos) =~= v@.skip(p2 as int));
        }
        if p2 == n {
            proof {
                assert(v@.skip(p2 as int).len() == 0);
                assert(tokens(v@.skip(pos as int), seps) =~= Seq::<Seq<char>>::empty());
                assert(out.deep_view() + Seq::<Seq<char>>::empty() =~= out.deep_view());
            }
            return out;
        }
        let mut e: usize = p2;
        while e < n && !is_delim_char(v[e], seps)
            invariant
                p2 <= e <= n,
                n == v@.len(),
                forall|j: int| p2 <= j < e ==> !is_delim(v@[j], seps),
            decreases n - e,
        {
            e += 1;
        }
        proof {
            lemma_token_len(v@.skip(p2 as int), seps, e - p2);
            assert(v@.skip(p2 as int).subrange(0, e - p2) =~= v@.subrange(p2 as int, e as int));
            assert(v@.skip(p2 as int).skip(e - p2) =~= v@.skip(e as int));
        }
        let tok = string_from_chars(&sub_chars(v, p2, e));
        push_name(&mut out, &tok);
        proof {
            assert(tokens(v@.skip(pos as int), seps) == seq![v@.subrange(p2 as int, e as int)]
                + tokens(v@.skip(e as int), seps));
            assert(out.deep_view() + tokens(v@.skip(e as int), seps) =~= tokens(v@, seps));
        }
        pos = e;
    }
    proof {
        assert(v@.skip(n as int).len() == 0);
        assert(tokens(v@.skip(pos as int), seps) =~= Seq::<Seq<char>>::empty());
        assert(out.deep_view() + Seq::<Seq<char>>::empty() =~= out.deep_view());
    }
    out
}

/// True when `c` is a delimiter of the chosen class.
pub fn is_delim_char(c: char, seps: bool) -> (r: bool)
    ensures
        r == is_delim(c, seps),
{
    if seps {
        c == '/' || c == '\\'
    } else {
        is_space_char(c)
    }
}

/// Number of trailing occurrences of `c`.
pub open spec fn count_trailing_char(s: Seq<char>, c: char) -> int
    decreases s.len(),
{
    if s.len() > 0 && s.last() == c {
        1 + count_trailing_char(s.drop_last(), c)
    } else {
        0
    }
}

/// `count_trailing_char` counts the maximal suffix of `c`s.
pub proof fn lemma_count_trailing_char(s: Seq<char>, c: char, t: int)
    requires
        0 <= t <= s.len(),
        forall|j: int| s.len() - t <= j < s.len() ==> s[j] == c,
        t == s.len() || s[s.len() - t - 1] != c,
    ensures
        count_trailing_char(s, c) == t,
    decreases s.len(),
{
    if s.len() > 0 && s.last() == c {
        lemma_count_trailing_char(s.drop_last(), c, t - 1);
    }
}

/// Concatenates two strings.
pub fn join2(a: &str, b: &str) -> (r: String)
    ensures
        r@ == a@ + b@,
{
    let mut v = chars_of(a);
    append_chars(&mut v, &chars_of(b));
    string_from_chars(&v)
}

/// Concatenates three strings.
pub fn join3(a: &str, b: &str, c: &str) -> (r: String)
    ensures
        r@ == a@ + b@ + c@,
{
    let mut v = chars_of(a);
    append_chars(&mut v, &chars_of(b));
    append_chars(&mut v, &chars_of(c));
    string_from_chars(&v)
}

/// Concatenates four strings.
pub fn join4(a: &str, b: &str, c: &str, d: &str) -> (r: String)
    ensures
        r@ == a@ + b@ + c@ + d@,
{
    let mut v = chars_of(a);
    append_chars(&mut v, &chars_of(b));
    append_chars(&mut v, &chars_of(c));
    append_chars(&mut v, &chars_of(d));
    string_from_chars(&v)
}

/// True when `c` is ASCII whitespace.
pub fn is_space_char(c: char) -> (r: bool)
    ensures
        r == is_space(c),
{
    c == ' ' || c == '\t' || c == '\n' || c == '\r'
}

/// Copies the range `[a, b)` of `s` into a fresh buffer.
pub fn sub_chars(s: &Vec<char>, a: usize, b: usize) -> (r: Vec<char>)
    requires
        a <= b <= s@.len(),
    ensures
        r@ == s@.subrange(a as int, b as int),
{
    let mut r: Vec<char> = Vec::new();
    let mut i: usize = a;
    while i < b
        invariant
            a <= i <= b <= s@.len(),
            r@ == s@.subrange(a as int, i as int),
        decreases b - i,
    {
        let c = s[i];
        r.push(c);
        assert(s@.subrange(a as int, i as int + 1) =~= s@.subrange(a as int, i as int).push(
            s@[i as int],
        ));
        i += 1;
    }
    r
}

/// Appends the characters of `src` to `dst`.
pub fn append_chars(dst: &mut Vec<char>, src: &Vec<char>) -> (u: ())
    ensures
        final(dst)@ == old(dst)@ + src@,
{
    let mut i: usize = 0;
    while i < src.len()
        invariant
            i <= src@.len(),
            dst@ == old(dst)@ + src@.take(i as int),
        decreases src@.len() - i,
    {
        let c = src[i];
        dst.push(c);
        assert(src@.take(i as int + 1) =~= src@.take(i as int).push(src@[i as int]));
        i += 1;
    }
    assert(src@.take(src@.len() as int) =~= src@);
}

/// Index of the first occurrence of `c` in `s` at or after `from`.
pub open spec fn find_char_from(s: Seq<char>, c: char, from: int) -> Option<int>
    decreases s.len() - from,
{
    if from < 0 || from >= s.len() {
        None
    } else if s[from] == c {
        Some(from)
    } else {
        find_char_from(s, c, from + 1)
    }
}

/// A found character lies at or after the start of the search, inside the
/// sequence.
pub broadcast proof fn lemma_find_char_bounds(s: Seq<char>, c: char, from: int)
    ensures
        (#[trigger] find_char_from(s, c, from)) matches Option::Some(i) ==> from <= i < s.len()
            && 0 <= i && s[i] == c,
    decreases s.len() - from,
{
    if 0 <= from < s.len() && s[from] != c {
        lemma_find_char_bounds(s, c, from + 1);
    }
}

/// Finds the first occurrence of `c` in `s` at or after `from`.
pub fn find_char(s: &Vec<char>, c: char, from: usize) -> (r: Option<usize>)
    ensures
        match r {
            Some(i) => find_char_from(s@, c, from as int) == Some(i as int) && from <= i
                < s@.len() && s@[i as int] == c,
            None => find_char_from(s@, c, from as int) is None,
        },
{
    let mut i: usize = from;
    while i < s.len()
        invariant
            from <= i,
            find_char_from(s@, c, from as int) == find_char_from(s@, c, i as int),
        decreases s@.len() - i,
    {
        if s[i] == c {
            return Some(i);
        }
        i += 1;
    }
    None
}

/// Appends a copy of `s` to a list of strings, tracked on the deep view.
pub fn push_name(r: &mut Vec<String>, s: &String)
    ensures
        final(r).deep_view() == old(r).deep_view().push(s@),
{
    let c = s.clone();
    let ghost pre = r@;
    r.push(c);
    proof {
        assert forall|k: int| 0 <= k < pre.len() + 1 implies r.deep_view()[k] == old(
            r,
        ).deep_view().push(s@)[k] by {
            if k < pre.len() {
                assert(r@[k] == pre[k]);
                assert(old(r).deep_view()[k] == pre[k].deep_view());
            } else {
                assert(r@[k] == c);
            }
        }
        assert(r.deep_view() =~= old(r).deep_view().push(s@));
    }
}

/// True when the two buffers hold the same characters.
pub fn eq_chars(a: &Vec<char>, b: &Vec<char>) -> (r: bool)
    ensures
        r == (a@ == b@),
{
    if a.len() != b.len() {
        return false;
    }
    let r = matches_at(a, b, 0);
    assert(a@.subrange(0, b@.len() as int) =~= a@);
    r
}

/// Number of trailing whitespace characters of `s`.
pub open spec fn trailing_spaces(s: Seq<char>) -> int
    decreases s.len(),
{
    if s.len() > 0 && is_space(s.last()) {
        1 + trailing_spaces(s.drop_last())
    } else {
        0
    }
}

/// `leading_spaces` is the length of the maximal whitespace prefix.
pub proof fn lemma_leading_spaces(s: Seq<char>, l: int)
    requires
        0 <= l <= s.len(),
        forall|j: int| 0 <= j < l ==> is_space(s[j]),
        l == s.len() || !is_space(s[l]),
    ensures
        leading_spaces(s) == l,
    decreases s.len(),
{
    if s.len() > 0 && is_space(s[0]) {
        lemma_leading_spaces(s.drop_first(), l - 1);
    }
}

/// `trailing_spaces` is the length of the maximal whitespace suffix.
pub proof fn lemma_trailing_spaces(s: Seq<char>, t: int)
    requires
        0 <= t <= s.len(),
        forall|j: int| s.len() - t <= j < s.len() ==> is_space(s[j]),
        t == s.len() || !is_space(s[s.len() - t - 1]),
    ensures
        trailing_spaces(s) == t,
    decreases s.len(),
{
    if s.len() > 0 && is_space(s.last()) {
        lemma_trailing_spaces(s.drop_last(), t - 1);
    }
}

/// `s` with leading and trailing ASCII whitespace removed.
pub open spec fn trim_spec(s: Seq<char>) -> Seq<char> {
    if leading_spaces(s) == s.len() {
        Seq::empty()
    } else {
        s.subrange(leading_spaces(s), s.len() - trailing_spaces(s))
    }
}

/// Removes leading and trailing ASCII whitespace.
pub fn trim_chars(v: &Vec<char>) -> (r: Vec<char>)
    ensures
        r@ == trim_spec(v@),
{
    let n: usize = v.len();
    let mut start: usize = 0;
    while start < n && is_space_char(v[start])
        invariant
            start <= n,
            n == v@.len(),
            forall|j: int| 0 <= j < start ==> is_space(v@[j]),
        decreases n - start,
    {
        start += 1;
    }
    proof {
        lemma_leading_spaces(v@, start as int);
    }
    if start == n {
        let r: Vec<char> = Vec::new();
        assert(r@ =~= trim_spec(v@));
        return r;
    }
    let mut end: usize = n;
    while end > start && is_space_char(v[end - 1])
        invariant
            start <= end <= n,
            n == v@.len(),
            start < n,
            !is_space(v@[start as int]),
            forall|j: int| end <= j < n ==> is_space(v@[j]),
        decreases end,
    {
        end -= 1;
    }
    proof {
        lemma_trailing_spaces(v@, n - end);
    }
    let mut r: Vec<char> = Vec::new();
    let mut i: usize = start;
    while i < end
        invariant
            start <= i <= end <= n,
            n == v@.len(),
            r@ == v@.subrange(start as int, i as int),
        decreases end - i,
    {
        let c = v[i];
        r.push(c);
        assert(v@.subrange(start as int, i as int + 1) =~= v@.subrange(
            start as int,
            i as int,
        ).push(v@[i as int]));
        i += 1;
    }
    assert(r@ =~= trim_spec(v@));
    r
}

} // verus!
