//! Candidate scanner: walks directory snapshots with the classifier and the
//! exclusion rules, deduplicates candidates by lower-cased absolute path
//! (first occurrence wins), and orders the result by base-path label and
//! folder name for reproducible output.

use vstd::prelude::*;

use crate::classify::{is_excluded_folder, is_excluded_name};
use crate::text::{
    chars_of, eq_chars, join2, join3, join4, lower, lower_chars, push_name, string_from_chars,
};
use crate::tree::{contains_saves_at_any_depth, contains_saves_spec, dir_save_like, is_hidden, is_hidden_name, skip_settings, tree_save_like, DirTree};

verus! {

/// One save-folder candidate: its absolute path, its folder name for
/// display, and the label of the base location the scan found it under.
pub struct PathCandidateDto {
    pub path: String,
    pub folder_name: String,
    pub base_path: String,
}

/// The candidate's three string views.
pub open spec fn cand_view(c: PathCandidateDto) -> (Seq<char>, Seq<char>, Seq<char>) {
    (c.path@, c.folder_name@, c.base_path@)
}

/// The views of a candidate list.
pub open spec fn cands_view(s: Seq<PathCandidateDto>) -> Seq<(Seq<char>, Seq<char>, Seq<char>)> {
    Seq::new(s.len(), |i: int| cand_view(s[i]))
}

/// The deduplication key of a candidate path.
pub open spec fn dedup_key(path: Seq<char>) -> Seq<char> {
    lower(path)
}

/// The scanner's running state: candidates emitted so far and the keys
/// already seen.
pub open spec fn emit(
    st: (Seq<(Seq<char>, Seq<char>, Seq<char>)>, Seq<Seq<char>>),
    path: Seq<char>,
    folder: Seq<char>,
    base: Seq<char>,
) -> (Seq<(Seq<char>, Seq<char>, Seq<char>)>, Seq<Seq<char>>) {
    if st.1.contains(dedup_key(path)) {
        st
    } else {
        (st.0.push((path, folder, base)), st.1.push(dedup_key(path)))
    }
}

/// Appends a candidate, tracked on the view.
fn push_candidate(cands: &mut Vec<PathCandidateDto>, c: PathCandidateDto)
    ensures
        cands_view(final(cands)@) == cands_view(old(cands)@).push(cand_view(c)),
{
    let ghost pre = cands@;
    let ghost cv = cand_view(c);
    cands.push(c);
    proof {
        assert forall|k: int| 0 <= k < pre.len() + 1 implies cands_view(cands@)[k] == cands_view(
            pre,
        ).push(cv)[k] by {
            if k < pre.len() {
                assert(cands@[k] == pre[k]);
            } else {
                assert(cands@[k] == cands@.last());
            }
        }
        assert(cands_view(cands@) =~= cands_view(pre).push(cv));
    }
}

/// True when `key` is among the seen keys.
fn seen_has(seen: &Vec<String>, key: &Vec<char>) -> (r: bool)
    ensures
        r == seen.deep_view().contains(key@),
{
    let mut i: usize = 0;
    while i < seen.len()
        invariant
            i <= seen@.len(),
            forall|j: int| 0 <= j < i ==> seen.deep_view()[j] != key@,
        decreases seen@.len() - i,
    {
        let s = chars_of(seen[i].as_str());
        if eq_chars(&s, key) {
            assert(seen.deep_view()[i as int] == key@);
            return true;
        }
        i += 1;
    }
    assert(!seen.deep_view().contains(key@));
    false
}

/// Emits one candidate unless its key was already seen; a new key is
/// recorded.
fn emit_candidate(
    cands: &mut Vec<PathCandidateDto>,
    seen: &mut Vec<String>,
    path: String,
    folder: String,
    base: String,
)
    ensures
        (cands_view(final(cands)@), final(seen).deep_view()) == emit(
            (cands_view(old(cands)@), old(seen).deep_view()),
            path@,
            folder@,
            base@,
        ),
{
    let key = lower_chars(&chars_of(path.as_str()));
    if !seen_has(seen, &key) {
        let ks = string_from_chars(&key);
        push_name(seen, &ks);
        push_candidate(
            cands,
            PathCandidateDto { path, folder_name: folder, base_path: base },
        );
    }
}

/// One base-scan step: a visible, not-excluded, save-like subdirectory is
/// emitted under the base label.
pub open spec fn scan_dir_step(
    st: (Seq<(Seq<char>, Seq<char>, Seq<char>)>, Seq<Seq<char>>),
    d: DirTree,
    label: Seq<char>,
) -> (Seq<(Seq<char>, Seq<char>, Seq<char>)>, Seq<Seq<char>>) {
    if !is_hidden(d.name@) && !is_excluded_name(d.name@) && tree_save_like(d) {
        emit(st, d.path@, d.name@, label)
    } else {
        st
    }
}

/// Folds `scan_dir_step` over the subdirectories of a base location.
pub open spec fn scan_dirs(
    st: (Seq<(Seq<char>, Seq<char>, Seq<char>)>, Seq<Seq<char>>),
    ds: Seq<DirTree>,
    label: Seq<char>,
) -> (Seq<(Seq<char>, Seq<char>, Seq<char>)>, Seq<Seq<char>>)
    decreases ds.len(),
{
    if ds.len() == 0 {
        st
    } else {
        scan_dir_step(scan_dirs(st, ds.drop_last(), label), ds.last(), label)
    }
}

/// Scans one base location: each visible, not-excluded, save-like
/// subdirectory becomes a candidate under `base_label`, deduplicated against
/// `seen` by lower-cased path.
pub fn scan_base_paths(
    base: &DirTree,
    base_label: &str,
    candidates: &mut Vec<PathCandidateDto>,
    seen: &mut Vec<String>,
)
    ensures
        (cands_view(final(candidates)@), final(seen).deep_view()) == scan_dirs(
            (cands_view(old(candidates)@), old(seen).deep_view()),
            base.subdirs@,
            base_label@,
        ),
{
    let ghost st0 = (cands_view(old(candidates)@), old(seen).deep_view());
    let ghost subs = base.subdirs@;
    let mut i: usize = 0;
    while i < base.subdirs.len()
        invariant
            i <= subs.len(),
            subs == base.subdirs@,
            (cands_view(candidates@), seen.deep_view()) == scan_dirs(
                st0,
                subs.take(i as int),
                base_label@,
            ),
        decreases subs.len() - i,
    {
        let d: &DirTree = &base.subdirs[i];
        proof {
            assert(subs.take(i as int + 1).drop_last() =~= subs.take(i as int));
            assert(subs.take(i as int + 1).last() == subs[i as int]);
        }
        if !is_hidden_name(d.name.as_str()) && !is_excluded_folder(d.name.as_str()) {
            if dir_save_like(d) {
                emit_candidate(
                    candidates,
                    seen,
                    d.path.clone(),
                    d.name.clone(),
                    base_label.to_owned(),
                );
            }
        }
        i += 1;
    }
    proof {
        assert(subs.take(subs.len() as int) =~= subs);
    }
}

/// A non-empty, all-digits name, as Steam spells user and app directories.
pub open spec fn is_digits(s: Seq<char>) -> bool {
    s.len() > 0 && forall|i: int| 0 <= i < s.len() ==> '0' <= s[i] && s[i] <= '9'
}

/// True when the name is non-empty and all digits.
pub fn is_digits_name(name: &str) -> (r: bool)
    ensures
        r == is_digits(name@),
{
    let v = chars_of(name);
    if v.len() == 0 {
        return false;
    }
    let mut i: usize = 0;
    while i < v.len()
        invariant
            i <= v@.len(),
            v@ == name@,
            forall|j: int| 0 <= j < i ==> '0' <= v@[j] && v@[j] <= '9',
        decreases v@.len() - i,
    {
        let c = v[i];
        if !('0' <= c && c <= '9') {
            assert(!('0' <= name@[i as int] && name@[i as int] <= '9'));
            return false;
        }
        i += 1;
    }
    true
}

/// Index of the first subdirectory named `name`, searching from `from`.
pub open spec fn find_named_from(ds: Seq<DirTree>, name: Seq<char>, from: int) -> Option<int>
    decreases ds.len() - from,
{
    if from < 0 || from >= ds.len() {
        Option::None
    } else if ds[from].name@ == name {
        Option::Some(from)
    } else {
        find_named_from(ds, name, from + 1)
    }
}

/// The directory the userdata scan inspects for one app: its `remote`
/// subdirectory when it has one, else the app directory itself.
pub open spec fn app_target(app: DirTree) -> DirTree {
    match find_named_from(app.subdirs@, "remote"@, 0) {
        Option::Some(i) => app.subdirs@[i],
        Option::None => app,
    }
}

/// Finds the first subdirectory of `d` named `name`.
fn find_named<'a>(d: &'a DirTree, name: &str) -> (r: Option<&'a DirTree>)
    ensures
        match r {
            Some(s) => exists|i: int|
                find_named_from(d.subdirs@, name@, 0) == Option::Some(i) && 0 <= i
                    < d.subdirs@.len() && *s == d.subdirs@[i],
            None => find_named_from(d.subdirs@, name@, 0) is None,
        },
{
    let nv = chars_of(name);
    let mut i: usize = 0;
    while i < d.subdirs.len()
        invariant
            0 <= i <= d.subdirs@.len(),
            nv@ == name@,
            find_named_from(d.subdirs@, name@, 0) == find_named_from(d.subdirs@, name@, i as int),
        decreases d.subdirs@.len() - i,
    {
        let s = chars_of(d.subdirs[i].name.as_str());
        if eq_chars(&s, &nv) {
            assert(d.subdirs@[i as int].name@ == name@);
            assert(find_named_from(d.subdirs@, name@, i as int) == Option::Some(i as int));
            return Some(&d.subdirs[i]);
        }
        assert(d.subdirs@[i as int].name@ != name@);
        assert(find_named_from(d.subdirs@, name@, i as int) == find_named_from(
            d.subdirs@,
            name@,
            i as int + 1,
        ));
        i += 1;
    }
    None
}

/// Candidates produced by one user's app directories: each numeric app
/// directory whose target (its `remote` subdirectory, else itself) is
/// save-like.
pub open spec fn user_app_cands(apps: Seq<DirTree>, user: Seq<char>) -> Seq<
    (Seq<char>, Seq<char>, Seq<char>),
>
    decreases apps.len(),
{
    if apps.len() == 0 {
        Seq::empty()
    } else {
        user_app_cands(apps.drop_last(), user) + {
            let app = apps.last();
            let t = app_target(app);
            if is_digits(app.name@) && tree_save_like(t) {
                seq![(t.path@, "Steam App "@ + app.name@, "Steam userdata ("@ + user + ")"@)]
            } else {
                Seq::empty()
            }
        }
    }
}

/// Candidates produced by the whole userdata directory: the numeric user
/// directories contribute their app candidates in order.
pub open spec fn userdata_cands(users: Seq<DirTree>) -> Seq<(Seq<char>, Seq<char>, Seq<char>)>
    decreases users.len(),
{
    if users.len() == 0 {
        Seq::empty()
    } else {
        userdata_cands(users.drop_last()) + if is_digits(users.last().name@) {
            user_app_cands(users.last().subdirs@, users.last().name@)
        } else {
            Seq::empty()
        }
    }
}

/// Scans the Steam userdata directory: numeric user directories, numeric
/// app directories inside them, preferring each app's `remote` subdirectory
/// as the save root.
pub fn find_steam_userdata_candidates(userdata: &DirTree) -> (r: Vec<PathCandidateDto>)
    ensures
        cands_view(r@) == userdata_cands(userdata.subdirs@),
{
    let mut out: Vec<PathCandidateDto> = Vec::new();
    let ghost users = userdata.subdirs@;
    let mut u: usize = 0;
    while u < userdata.subdirs.len()
        invariant
            u <= users.len(),
            users == userdata.subdirs@,
            cands_view(out@) == userdata_cands(users.take(u as int)),
        decreases users.len() - u,
    {
        let user: &DirTree = &userdata.subdirs[u];
        proof {
            assert(users.take(u as int + 1).drop_last() =~= users.take(u as int));
            assert(users.take(u as int + 1).last() == users[u as int]);
        }
        if is_digits_name(user.name.as_str()) {
            let ghost apps = user.subdirs@;
            let mut a: usize = 0;
            while a < user.subdirs.len()
                invariant
                    a <= apps.len(),
                    apps == user.subdirs@,
                    users == userdata.subdirs@,
                    0 <= u < users.len(),
                    user == users[u as int],
                    cands_view(out@) == userdata_cands(users.take(u as int)) + user_app_cands(
                        apps.take(a as int),
                        user.name@,
                    ),
                decreases apps.len() - a,
            {
                let app: &DirTree = &user.subdirs[a];
                proof {
                    assert(apps.take(a as int + 1).drop_last() =~= apps.take(a as int));
                    assert(apps.take(a as int + 1).last() == apps[a as int]);
                }
                if is_digits_name(app.name.as_str()) {
                    let target: &DirTree = match find_named(app, "remote") {
                        Some(t) => t,
                        None => app,
                    };
                    assert(*target == app_target(*app));
                    if dir_save_like(target) {
                        let c = PathCandidateDto {
                            path: target.path.clone(),
                            folder_name: join2("Steam App ", app.name.as_str()),
                            base_path: join3("Steam userdata (", user.name.as_str(), ")"),
                        };
                        push_candidate(&mut out, c);
                    }
                }
                a += 1;
            }
            proof {
                assert(apps.take(apps.len() as int) =~= apps);
            }
        }
        u += 1;
    }
    proof {
        assert(users.take(users.len() as int) =~= users);
    }
    out
}

/// Candidates produced by one Steam library's `steamapps/common` directory:
/// every visible, save-like install directory.
pub open spec fn library_cands(ds: Seq<DirTree>, lib: Seq<char>) -> Seq<
    (Seq<char>, Seq<char>, Seq<char>),
>
    decreases ds.len(),
{
    if ds.len() == 0 {
        Seq::empty()
    } else {
        library_cands(ds.drop_last(), lib) + {
            let d = ds.last();
            if !is_hidden(d.name@) && tree_save_like(d) {
                seq![(d.path@, d.name@, "Steam Library ("@ + lib + ")"@)]
            } else {
                Seq::empty()
            }
        }
    }
}

/// Scans one Steam library's `steamapps/common` directory for save-like
/// install directories.
pub fn find_steam_library_candidates(common: &DirTree, library_path: &str) -> (r: Vec<
    PathCandidateDto,
>)
    ensures
        cands_view(r@) == library_cands(common.subdirs@, library_path@),
{
    let mut out: Vec<PathCandidateDto> = Vec::new();
    let ghost ds = common.subdirs@;
    let mut i: usize = 0;
    while i < common.subdirs.len()
        invariant
            i <= ds.len(),
            ds == common.subdirs@,
            cands_view(out@) == library_cands(ds.take(i as int), library_path@),
        decreases ds.len() - i,
    {
        let d: &DirTree = &common.subdirs[i];
        proof {
            assert(ds.take(i as int + 1).drop_last() =~= ds.take(i as int));
            assert(ds.take(i as int + 1).last() == ds[i as int]);
        }
        if !is_hidden_name(d.name.as_str()) {
            if dir_save_like(d) {
                let c = PathCandidateDto {
                    path: d.path.clone(),
                    folder_name: d.name.clone(),
                    base_path: join3("Steam Library (", library_path, ")"),
                };
                push_candidate(&mut out, c);
            }
        }
        i += 1;
    }
    proof {
        assert(ds.take(ds.len() as int) =~= ds);
    }
    out
}

/// Folds pre-built candidates into the scan state, deduplicating by key.
pub open spec fn merge_new(
    st: (Seq<(Seq<char>, Seq<char>, Seq<char>)>, Seq<Seq<char>>),
    cs: Seq<(Seq<char>, Seq<char>, Seq<char>)>,
) -> (Seq<(Seq<char>, Seq<char>, Seq<char>)>, Seq<Seq<char>>)
    decreases cs.len(),
{
    if cs.len() == 0 {
        st
    } else {
        let p = merge_new(st, cs.drop_last());
        emit(p, cs.last().0, cs.last().1, cs.last().2)
    }
}

/// Merges pre-built candidates into the output, deduplicating by key.
fn merge_candidates(
    produced: &Vec<PathCandidateDto>,
    candidates: &mut Vec<PathCandidateDto>,
    seen: &mut Vec<String>,
)
    ensures
        (cands_view(final(candidates)@), final(seen).deep_view()) == merge_new(
            (cands_view(old(candidates)@), old(seen).deep_view()),
            cands_view(produced@),
        ),
{
    let ghost st0 = (cands_view(old(candidates)@), old(seen).deep_view());
    let ghost cs = cands_view(produced@);
    let mut i: usize = 0;
    while i < produced.len()
        invariant
            i <= cs.len(),
            cs == cands_view(produced@),
            cs.len() == produced@.len(),
            (cands_view(candidates@), seen.deep_view()) == merge_new(st0, cs.take(i as int)),
        decreases cs.len() - i,
    {
        let c: &PathCandidateDto = &produced[i];
        proof {
            assert(cs.take(i as int + 1).drop_last() =~= cs.take(i as int));
            assert(cs.take(i as int + 1).last() == cs[i as int]);
        }
        emit_candidate(
            candidates,
            seen,
            c.path.clone(),
            c.folder_name.clone(),
            c.base_path.clone(),
        );
        i += 1;
    }
    proof {
        assert(cs.take(cs.len() as int) =~= cs);
    }
}

/// Folds the libraries' candidates into the scan state, in order.
pub open spec fn libs_fold(
    st: (Seq<(Seq<char>, Seq<char>, Seq<char>)>, Seq<Seq<char>>),
    libs: Seq<(String, DirTree)>,
) -> (Seq<(Seq<char>, Seq<char>, Seq<char>)>, Seq<Seq<char>>)
    decreases libs.len(),
{
    if libs.len() == 0 {
        st
    } else {
        let p = libs_fold(st, libs.drop_last());
        merge_new(p, library_cands(libs.last().1.subdirs@, libs.last().0@))
    }
}

/// The whole Steam scan: userdata candidates, then the install root's own
/// library, then each further library from the library-folders manifest,
/// all deduplicated against the running state.
pub open spec fn scan_steam_spec(
    st: (Seq<(Seq<char>, Seq<char>, Seq<char>)>, Seq<Seq<char>>),
    userdata: Option<DirTree>,
    root_common: Option<DirTree>,
    root: Seq<char>,
    libs: Seq<(String, DirTree)>,
) -> (Seq<(Seq<char>, Seq<char>, Seq<char>)>, Seq<Seq<char>>) {
    let st1 = match userdata {
        Option::Some(u) => merge_new(st, userdata_cands(u.subdirs@)),
        Option::None => st,
    };
    let st2 = match root_common {
        Option::Some(c) => merge_new(st1, library_cands(c.subdirs@, root)),
        Option::None => st1,
    };
    libs_fold(st2, libs)
}

/// Scans the Steam install: userdata saves, the root library and the
/// manifest-listed libraries, with global deduplication.
pub fn scan_steam(
    userdata: &Option<DirTree>,
    root_common: &Option<DirTree>,
    root_path: &str,
    libraries: &Vec<(String, DirTree)>,
    candidates: &mut Vec<PathCandidateDto>,
    seen: &mut Vec<String>,
)
    ensures
        (cands_view(final(candidates)@), final(seen).deep_view()) == scan_steam_spec(
            (cands_view(old(candidates)@), old(seen).deep_view()),
            *userdata,
            *root_common,
            root_path@,
            libraries@,
        ),
{
    match userdata {
        Some(u) => {
            let produced = find_steam_userdata_candidates(u);
            merge_candidates(&produced, candidates, seen);
        },
        None => {},
    }
    match root_common {
        Some(c) => {
            let produced = find_steam_library_candidates(c, root_path);
            merge_candidates(&produced, candidates, seen);
        },
        None => {},
    }
    let ghost st2 = (cands_view(candidates@), seen.deep_view());
    let ghost libs = libraries@;
    let mut i: usize = 0;
    while i < libraries.len()
        invariant
            i <= libs.len(),
            libs == libraries@,
            (cands_view(candidates@), seen.deep_view()) == libs_fold(st2, libs.take(i as int)),
        decreases libs.len() - i,
    {
        let lib: &(String, DirTree) = &libraries[i];
        proof {
            assert(libs.take(i as int + 1).drop_last() =~= libs.take(i as int));
            assert(libs.take(i as int + 1).last() == libs[i as int]);
        }
        let produced = find_steam_library_candidates(&lib.1, lib.0.as_str());
        merge_candidates(&produced, candidates, seen);
        i += 1;
    }
    proof {
        assert(libs.take(libs.len() as int) =~= libs);
    }
}

/// One crack-save location: its display label, its expanded base path, and
/// the snapshot of that base directory.
pub struct CrackLocation {
    pub label: String,
    pub base_path: String,
    pub tree: DirTree,
}

/// One crack-scan step: a visible app directory, not an emulator settings
/// folder, containing saves at any depth, is emitted.
pub open spec fn crack_dir_step(
    st: (Seq<(Seq<char>, Seq<char>, Seq<char>)>, Seq<Seq<char>>),
    d: DirTree,
    label: Seq<char>,
    base: Seq<char>,
) -> (Seq<(Seq<char>, Seq<char>, Seq<char>)>, Seq<Seq<char>>) {
    if !is_hidden(d.name@) && !skip_settings(d.name@) && contains_saves_spec(d, 0) {
        emit(st, d.path@, label + " — "@ + d.name@, label + " ("@ + base + ")"@)
    } else {
        st
    }
}

/// Folds `crack_dir_step` over one location's subdirectories.
pub open spec fn crack_dirs(
    st: (Seq<(Seq<char>, Seq<char>, Seq<char>)>, Seq<Seq<char>>),
    ds: Seq<DirTree>,
    label: Seq<char>,
    base: Seq<char>,
) -> (Seq<(Seq<char>, Seq<char>, Seq<char>)>, Seq<Seq<char>>)
    decreases ds.len(),
{
    if ds.len() == 0 {
        st
    } else {
        crack_dir_step(crack_dirs(st, ds.drop_last(), label, base), ds.last(), label, base)
    }
}

/// Folds the crack locations, in order.
pub open spec fn crack_locs(
    st: (Seq<(Seq<char>, Seq<char>, Seq<char>)>, Seq<Seq<char>>),
    locs: Seq<CrackLocation>,
) -> (Seq<(Seq<char>, Seq<char>, Seq<char>)>, Seq<Seq<char>>)
    decreases locs.len(),
{
    if locs.len() == 0 {
        st
    } else {
        let p = crack_locs(st, locs.drop_last());
        crack_dirs(p, locs.last().tree.subdirs@, locs.last().label@, locs.last().base_path@)
    }
}

/// Scans the crack-save locations: each visible app directory that holds
/// saves at any depth (emulator settings folders excepted) becomes a
/// candidate, deduplicated against the running state.
pub fn scan_cracks(
    locations: &Vec<CrackLocation>,
    candidates: &mut Vec<PathCandidateDto>,
    seen: &mut Vec<String>,
)
    ensures
        (cands_view(final(candidates)@), final(seen).deep_view()) == crack_locs(
            (cands_view(old(candidates)@), old(seen).deep_view()),
            locations@,
        ),
{
    let ghost st0 = (cands_view(old(candidates)@), old(seen).deep_view());
    let ghost locs = locations@;
    let mut i: usize = 0;
    while i < locations.len()
        invariant
            i <= locs.len(),
            locs == locations@,
            (cands_view(candidates@), seen.deep_view()) == crack_locs(st0, locs.take(i as int)),
        decreases locs.len() - i,
    {
        let loc: &CrackLocation = &locations[i];
        proof {
            assert(locs.take(i as int + 1).drop_last() =~= locs.take(i as int));
            assert(locs.take(i as int + 1).last() == locs[i as int]);
        }
        let ghost stl = (cands_view(candidates@), seen.deep_view());
        let ghost ds = loc.tree.subdirs@;
        let mut d: usize = 0;
        while d < loc.tree.subdirs.len()
            invariant
                d <= ds.len(),
                ds == loc.tree.subdirs@,
                locs == locations@,
                0 <= i < locs.len(),
                loc == locs[i as int],
                (cands_view(candidates@), seen.deep_view()) == crack_dirs(
                    stl,
                    ds.take(d as int),
                    loc.label@,
                    loc.base_path@,
                ),
            decreases ds.len() - d,
        {
            let sub: &DirTree = &loc.tree.subdirs[d];
            proof {
                assert(ds.take(d as int + 1).drop_last() =~= ds.take(d as int));
                assert(ds.take(d as int + 1).last() == ds[d as int]);
            }
            let name = chars_of(sub.name.as_str());
            let skipped = eq_chars(&name, &chars_of("steam_settings")) || eq_chars(
                &name,
                &chars_of("settings"),
            );
            if !is_hidden_name(sub.name.as_str()) && !skipped {
                if contains_saves_at_any_depth(sub, 0) {
                    emit_candidate(
                        candidates,
                        seen,
                        sub.path.clone(),
                        join3(loc.label.as_str(), " — ", sub.name.as_str()),
                        join4(loc.label.as_str(), " (", loc.base_path.as_str(), ")"),
                    );
                }
            }
            d += 1;
        }
        proof {
            assert(ds.take(ds.len() as int) =~= ds);
        }
        i += 1;
    }
    proof {
        assert(locs.take(locs.len() as int) =~= locs);
    }
}

/// Strict lexicographic order on character sequences, by code point.
pub open spec fn seq_lt(a: Seq<char>, b: Seq<char>) -> bool
    decreases a.len(),
{
    if b.len() == 0 {
        false
    } else if a.len() == 0 {
        true
    } else if a[0] != b[0] {
        a[0] < b[0]
    } else {
        seq_lt(a.drop_first(), b.drop_first())
    }
}

/// The candidate sort order: by base-path label, then by folder name.
/// `cand_gt(x, c)` says `x` sorts strictly after `c`.
pub open spec fn cand_gt(
    x: (Seq<char>, Seq<char>, Seq<char>),
    c: (Seq<char>, Seq<char>, Seq<char>),
) -> bool {
    seq_lt(c.2, x.2) || (c.2 == x.2 && seq_lt(c.1, x.1))
}

/// Stable insertion: `c` goes in front of the first element that sorts
/// strictly after it.
pub open spec fn insort(
    s: Seq<(Seq<char>, Seq<char>, Seq<char>)>,
    c: (Seq<char>, Seq<char>, Seq<char>),
) -> Seq<(Seq<char>, Seq<char>, Seq<char>)>
    decreases s.len(),
{
    if s.len() == 0 {
        seq![c]
    } else if cand_gt(s[0], c) {
        seq![c] + s
    } else {
        seq![s[0]] + insort(s.drop_first(), c)
    }
}

/// Stable insertion sort of the candidate list.
pub open spec fn sort_cands(s: Seq<(Seq<char>, Seq<char>, Seq<char>)>) -> Seq<
    (Seq<char>, Seq<char>, Seq<char>),
>
    decreases s.len(),
{
    if s.len() == 0 {
        s
    } else {
        insort(sort_cands(s.drop_last()), s.last())
    }
}

/// True when `a` sorts strictly before `b`, character by character.
fn lt_chars(a: &Vec<char>, b: &Vec<char>) -> (r: bool)
    ensures
        r == seq_lt(a@, b@),
{
    let an: usize = a.len();
    let bn: usize = b.len();
    proof {
        assert(a@.skip(0) =~= a@);
        assert(b@.skip(0) =~= b@);
    }
    let mut i: usize = 0;
    while i < an && i < bn && a[i] == b[i]
        invariant
            i <= an,
            i <= bn,
            an == a@.len(),
            bn == b@.len(),
            seq_lt(a@, b@) == seq_lt(a@.skip(i as int), b@.skip(i as int)),
        decreases an - i,
    {
        proof {
            assert(a@.skip(i as int).drop_first() =~= a@.skip(i as int + 1));
            assert(b@.skip(i as int).drop_first() =~= b@.skip(i as int + 1));
            assert(a@.skip(i as int)[0] == a@[i as int]);
            assert(b@.skip(i as int)[0] == b@[i as int]);
        }
        i += 1;
    }
    if i < an && i < bn {
        assert(a@.skip(i as int)[0] == a@[i as int]);
        assert(b@.skip(i as int)[0] == b@[i as int]);
        a[i] < b[i]
    } else {
        assert(a@.skip(i as int).len() == 0 || b@.skip(i as int).len() == 0);
        i < bn
    }
}

/// True when the existing candidate `x` sorts strictly after `c`.
fn cand_gt_exec(x: &PathCandidateDto, c: &PathCandidateDto) -> (r: bool)
    ensures
        r == cand_gt(cand_view(*x), cand_view(*c)),
{
    let xb = chars_of(x.base_path.as_str());
    let cb = chars_of(c.base_path.as_str());
    if lt_chars(&cb, &xb) {
        return true;
    }
    if eq_chars(&cb, &xb) {
        let xf = chars_of(x.folder_name.as_str());
        let cf = chars_of(c.folder_name.as_str());
        return lt_chars(&cf, &xf);
    }
    false
}

/// `insort` places the new element exactly at the first position whose
/// element sorts after it.
proof fn lemma_insort_at(
    s: Seq<(Seq<char>, Seq<char>, Seq<char>)>,
    c: (Seq<char>, Seq<char>, Seq<char>),
    idx: int,
)
    requires
        0 <= idx <= s.len(),
        forall|j: int| 0 <= j < idx ==> !cand_gt(s[j], c),
        idx == s.len() || cand_gt(s[idx], c),
    ensures
        insort(s, c) == s.take(idx) + seq![c] + s.skip(idx),
    decreases s.len(),
{
    if s.len() == 0 {
        assert(insort(s, c) =~= s.take(idx) + seq![c] + s.skip(idx));
    } else if cand_gt(s[0], c) {
        assert(idx == 0);
        assert(insort(s, c) =~= s.take(0) + seq![c] + s.skip(0));
    } else {
        assert(idx >= 1);
        lemma_insort_at(s.drop_first(), c, idx - 1);
        assert(s.drop_first().take(idx - 1) =~= s.take(idx).drop_first());
        assert(s.drop_first().skip(idx - 1) =~= s.skip(idx));
        assert(seq![s[0]] + (s.drop_first().take(idx - 1) + seq![c] + s.drop_first().skip(idx - 1))
            =~= s.take(idx) + seq![c] + s.skip(idx));
    }
}

/// Inserts `c` at its sort position, stably.
fn insert_sorted(out: &mut Vec<PathCandidateDto>, c: PathCandidateDto)
    ensures
        cands_view(final(out)@) == insort(cands_view(old(out)@), cand_view(c)),
{
    let n: usize = out.len();
    let mut idx: usize = 0;
    while idx < n && !cand_gt_exec(&out[idx], &c)
        invariant
            idx <= n,
            n == out@.len(),
            out@ == old(out)@,
            forall|j: int| 0 <= j < idx ==> !cand_gt(cand_view(out@[j]), cand_view(c)),
        decreases n - idx,
    {
        idx += 1;
    }
    proof {
        lemma_insort_at(cands_view(out@), cand_view(c), idx as int);
    }
    let ghost pre = out@;
    let ghost cv = cand_view(c);
    out.insert(idx, c);
    proof {
        assert(out@ == pre.insert(idx as int, c));
        assert forall|k: int| 0 <= k < out@.len() implies cands_view(out@)[k] == (cands_view(
            pre,
        ).take(idx as int) + seq![cv] + cands_view(pre).skip(idx as int))[k] by {
            if k < idx {
                assert(out@[k] == pre[k]);
            } else if k == idx {
                assert(out@[k] == c);
            } else {
                assert(out@[k] == pre[k - 1]);
            }
        }
        assert(cands_view(out@) =~= cands_view(pre).take(idx as int) + seq![cv] + cands_view(
            pre,
        ).skip(idx as int));
    }
}

/// Sorts candidates by base-path label, then folder name; equal keys keep
/// their scan order.
pub fn sort_candidates(input: &Vec<PathCandidateDto>) -> (r: Vec<PathCandidateDto>)
    ensures
        cands_view(r@) == sort_cands(cands_view(input@)),
{
    let ghost cs = cands_view(input@);
    let mut out: Vec<PathCandidateDto> = Vec::new();
    let mut i: usize = 0;
    while i < input.len()
        invariant
            i <= cs.len(),
            cs == cands_view(input@),
            cs.len() == input@.len(),
            cands_view(out@) == sort_cands(cs.take(i as int)),
        decreases cs.len() - i,
    {
        let src: &PathCandidateDto = &input[i];
        let c = PathCandidateDto {
            path: src.path.clone(),
            folder_name: src.folder_name.clone(),
            base_path: src.base_path.clone(),
        };
        proof {
            assert(cand_view(c) == cs[i as int]);
            assert(cs.take(i as int + 1).drop_last() =~= cs.take(i as int));
            assert(cs.take(i as int + 1).last() == cs[i as int]);
        }
        insert_sorted(&mut out, c);
        i += 1;
    }
    proof {
        assert(cs.take(cs.len() as int) =~= cs);
    }
    out
}

/// The Steam part of a scan snapshot: the userdata directory, the install
/// root's `steamapps/common`, the root path for labelling, and the further
/// libraries from the library-folders manifest, each with its own
/// `steamapps/common` snapshot.
pub struct SteamScan {
    pub userdata: Option<DirTree>,
    pub root_common: Option<DirTree>,
    pub root_path: String,
    pub libraries: Vec<(String, DirTree)>,
}

/// Everything one candidate scan looks at: the OS base locations with their
/// labels, the Steam install if present, the crack-save locations, and the
/// user-registered custom roots.
pub struct ScanSnapshot {
    pub bases: Vec<(String, DirTree)>,
    pub steam: Option<SteamScan>,
    pub cracks: Vec<CrackLocation>,
    pub customs: Vec<DirTree>,
}

/// Folds the base locations, in order.
pub open spec fn bases_fold(
    st: (Seq<(Seq<char>, Seq<char>, Seq<char>)>, Seq<Seq<char>>),
    bases: Seq<(String, DirTree)>,
) -> (Seq<(Seq<char>, Seq<char>, Seq<char>)>, Seq<Seq<char>>)
    decreases bases.len(),
{
    if bases.len() == 0 {
        st
    } else {
        let p = bases_fold(st, bases.drop_last());
        scan_dirs(p, bases.last().1.subdirs@, bases.last().0@)
    }
}

/// The label under which custom scan roots report their candidates.
pub open spec fn custom_label() -> Seq<char> {
    "Personalizada"@
}

/// Folds the custom scan roots, in order.
pub open spec fn customs_fold(
    st: (Seq<(Seq<char>, Seq<char>, Seq<char>)>, Seq<Seq<char>>),
    customs: Seq<DirTree>,
) -> (Seq<(Seq<char>, Seq<char>, Seq<char>)>, Seq<Seq<char>>)
    decreases customs.len(),
{
    if customs.len() == 0 {
        st
    } else {
        let p = customs_fold(st, customs.drop_last());
        scan_dirs(p, customs.last().subdirs@, custom_label())
    }
}

/// The whole scan before sorting: base locations, then Steam, then cracks,
/// then custom roots, sharing one deduplication state.
pub open spec fn scan_all_unsorted(s: ScanSnapshot) -> (
    Seq<(Seq<char>, Seq<char>, Seq<char>)>,
    Seq<Seq<char>>,
) {
    let st0 = (Seq::<(Seq<char>, Seq<char>, Seq<char>)>::empty(), Seq::<Seq<char>>::empty());
    let st1 = bases_fold(st0, s.bases@);
    let st2 = match s.steam {
        Option::Some(ss) => scan_steam_spec(
            st1,
            ss.userdata,
            ss.root_common,
            ss.root_path@,
            ss.libraries@,
        ),
        Option::None => st1,
    };
    let st3 = crack_locs(st2, s.cracks@);
    customs_fold(st3, s.customs@)
}

/// The scan's result: the deduplicated candidates, sorted by base-path
/// label and folder name.
pub open spec fn scan_all_spec(s: ScanSnapshot) -> Seq<(Seq<char>, Seq<char>, Seq<char>)> {
    sort_cands(scan_all_unsorted(s).0)
}

/// Runs the whole candidate scan over a filesystem snapshot: base
/// locations, Steam, crack locations and custom roots, deduplicated by
/// lower-cased path (first occurrence wins) and sorted for reproducible
/// output.
pub fn scan_candidates(snapshot: &ScanSnapshot) -> (r: Vec<PathCandidateDto>)
    ensures
        cands_view(r@) == scan_all_spec(*snapshot),
{
    let mut candidates: Vec<PathCandidateDto> = Vec::new();
    let mut seen: Vec<String> = Vec::new();
    proof {
        assert(cands_view(candidates@) =~= Seq::<(Seq<char>, Seq<char>, Seq<char>)>::empty());
        assert(seen.deep_view() =~= Seq::<Seq<char>>::empty());
    }
    let ghost st0 = (cands_view(candidates@), seen.deep_view());
    let ghost bs = snapshot.bases@;
    let mut i: usize = 0;
    while i < snapshot.bases.len()
        invariant
            i <= bs.len(),
            bs == snapshot.bases@,
            (cands_view(candidates@), seen.deep_view()) == bases_fold(st0, bs.take(i as int)),
        decreases bs.len() - i,
    {
        let base: &(String, DirTree) = &snapshot.bases[i];
        proof {
            assert(bs.take(i as int + 1).drop_last() =~= bs.take(i as int));
            assert(bs.take(i as int + 1).last() == bs[i as int]);
        }
        scan_base_paths(&base.1, base.0.as_str(), &mut candidates, &mut seen);
        i += 1;
    }
    proof {
        assert(bs.take(bs.len() as int) =~= bs);
    }
    match &snapshot.steam {
        Some(ss) => {
            scan_steam(
                &ss.userdata,
                &ss.root_common,
                ss.root_path.as_str(),
                &ss.libraries,
                &mut candidates,
                &mut seen,
            );
        },
        None => {},
    }
    scan_cracks(&snapshot.cracks, &mut candidates, &mut seen);
    let ghost st3 = (cands_view(candidates@), seen.deep_view());
    let ghost cus = snapshot.customs@;
    let mut c: usize = 0;
    while c < snapshot.customs.len()
        invariant
            c <= cus.len(),
            cus == snapshot.customs@,
            (cands_view(candidates@), seen.deep_view()) == customs_fold(st3, cus.take(c as int)),
        decreases cus.len() - c,
    {
        let root: &DirTree = &snapshot.customs[c];
        proof {
            assert(cus.take(c as int + 1).drop_last() =~= cus.take(c as int));
            assert(cus.take(c as int + 1).last() == cus[c as int]);
        }
        scan_base_paths(root, "Personalizada", &mut candidates, &mut seen);
        c += 1;
    }
    proof {
        assert(cus.take(cus.len() as int) =~= cus);
    }
    sort_candidates(&candidates)
}

/// The OS base-path templates the scanner expands and walks, with their
/// labels.
pub fn base_path_templates(windows: bool) -> (r: Vec<(String, String)>)
    ensures
        windows ==> r.deep_view() =~= seq![
            ("%USERPROFILE%\\Documents\\My Games"@, "Documents/My Games"@),
            ("%USERPROFILE%\\Documents"@, "Documents"@),
            ("%APPDATA%"@, "AppData"@),
            ("%LOCALAPPDATA%"@, "LocalAppData"@),
            ("%USERPROFILE%\\Saved Games"@, "Saved Games"@),
            ("%LOCALAPPDATA%\\Low"@, "LocalAppData/Low"@),
        ],
        !windows ==> r.deep_view() =~= seq![
            ("~/.local/share"@, "Local Share"@),
            ("~/.config"@, "Config"@),
            ("~/Documents"@, "Documents"@),
        ],
{
    let mut r: Vec<(String, String)> = Vec::new();
    if windows {
        r.push(("%USERPROFILE%\\Documents\\My Games".to_owned(), "Documents/My Games".to_owned()));
        r.push(("%USERPROFILE%\\Documents".to_owned(), "Documents".to_owned()));
        r.push(("%APPDATA%".to_owned(), "AppData".to_owned()));
        r.push(("%LOCALAPPDATA%".to_owned(), "LocalAppData".to_owned()));
        r.push(("%USERPROFILE%\\Saved Games".to_owned(), "Saved Games".to_owned()));
        r.push(("%LOCALAPPDATA%\\Low".to_owned(), "LocalAppData/Low".to_owned()));
    } else {
        r.push(("~/.local/share".to_owned(), "Local Share".to_owned()));
        r.push(("~/.config".to_owned(), "Config".to_owned()));
        r.push(("~/Documents".to_owned(), "Documents".to_owned()));
    }
    r
}

/// The conventional crack-save locations, as (path template, label) pairs.
pub fn crack_save_locations() -> (r: Vec<(String, String)>)
    ensures
        r.deep_view() =~= seq![
            ("C:\\Users\\Public\\Documents\\EMPRESS"@, "EMPRESS"@),
            ("C:\\Users\\Public\\Documents\\Steam"@, "CODEX/Steam emu"@),
            ("%APPDATA%\\Goldberg SteamEmu Saves"@, "Goldberg"@),
            ("%APPDATA%\\CODEX"@, "CODEX"@),
            ("%APPDATA%\\CPY_SAVES"@, "CPY (Conspir4cy)"@),
            ("%APPDATA%\\Skidrow"@, "Skidrow"@),
            ("%LOCALAPPDATA%\\CODEX"@, "CODEX (Local)"@),
            ("%USERPROFILE%\\Documents\\CPY_SAVES"@, "CPY (Documents)"@),
        ],
{
    let mut r: Vec<(String, String)> = Vec::new();
    r.push(("C:\\Users\\Public\\Documents\\EMPRESS".to_owned(), "EMPRESS".to_owned()));
    r.push(("C:\\Users\\Public\\Documents\\Steam".to_owned(), "CODEX/Steam emu".to_owned()));
    r.push(("%APPDATA%\\Goldberg SteamEmu Saves".to_owned(), "Goldberg".to_owned()));
    r.push(("%APPDATA%\\CODEX".to_owned(), "CODEX".to_owned()));
    r.push(("%APPDATA%\\CPY_SAVES".to_owned(), "CPY (Conspir4cy)".to_owned()));
    r.push(("%APPDATA%\\Skidrow".to_owned(), "Skidrow".to_owned()));
    r.push(("%LOCALAPPDATA%\\CODEX".to_owned(), "CODEX (Local)".to_owned()));
    r.push(("%USERPROFILE%\\Documents\\CPY_SAVES".to_owned(), "CPY (Documents)".to_owned()));
    r
}

/// The lower-cased system root a custom scan root must not equal: the
/// `SystemDrive` variable with a trailing backslash, or `c:\` when unset.
pub open spec fn system_root_spec(env: Seq<(Seq<char>, Seq<char>)>) -> Seq<char> {
    if crate::expand::env_has(env, "SystemDrive"@) {
        lower(crate::expand::env_val(env, "SystemDrive"@) + "\\"@)
    } else {
        "c:\\"@
    }
}

/// True when the path names the system root volume, which custom scan roots
/// skip.
pub fn is_system_root(path: &str, env: &Vec<(String, String)>) -> (r: bool)
    ensures
        r == (lower(path@) == system_root_spec(env.deep_view())),
{
    let name = chars_of("SystemDrive");
    let root: Vec<char> = match crate::expand::env_get(env, &name) {
        Some(mut d) => {
            d.push('\\');
            proof {
                reveal_strlit("\\");
                assert(d@ =~= crate::expand::env_val(env.deep_view(), "SystemDrive"@) + "\\"@);
            }
            lower_chars(&d)
        },
        None => {
            let v = chars_of("c:\\");
            v
        },
    };
    assert(root@ == system_root_spec(env.deep_view()));
    let p = lower_chars(&chars_of(path));
    eq_chars(&p, &root)
}

/// No two candidates share a deduplication key.
pub open spec fn nodup_keys(cs: Seq<(Seq<char>, Seq<char>, Seq<char>)>) -> bool {
    forall|i: int, j: int|
        0 <= i < j < cs.len() ==> dedup_key(cs[i].0) != dedup_key(cs[j].0)
}

/// Every emitted candidate's key is recorded in the seen set.
pub open spec fn keys_seen(
    cs: Seq<(Seq<char>, Seq<char>, Seq<char>)>,
    seen: Seq<Seq<char>>,
) -> bool {
    forall|i: int| 0 <= i < cs.len() ==> seen.contains(dedup_key(#[trigger] cs[i].0))
}

/// The deduplication invariant of the scan state.
pub open spec fn scan_inv(st: (Seq<(Seq<char>, Seq<char>, Seq<char>)>, Seq<Seq<char>>)) -> bool {
    nodup_keys(st.0) && keys_seen(st.0, st.1)
}

/// Membership after a push: the old members plus the pushed one.
proof fn lemma_contains_push(s: Seq<Seq<char>>, x: Seq<char>, y: Seq<char>)
    ensures
        s.push(x).contains(y) == (s.contains(y) || x == y),
{
    if s.contains(y) {
        let i = choose|i: int| 0 <= i < s.len() && s[i] == y;
        assert(s.push(x)[i] == y);
    }
    if x == y {
        assert(s.push(x)[s.len() as int] == y);
    }
    if s.push(x).contains(y) {
        let i = choose|i: int| 0 <= i < s.push(x).len() && s.push(x)[i] == y;
        if i < s.len() {
            assert(s[i] == y);
        }
    }
}

/// `emit` preserves the deduplication invariant and never forgets a seen
/// key.
proof fn lemma_emit_inv(
    st: (Seq<(Seq<char>, Seq<char>, Seq<char>)>, Seq<Seq<char>>),
    p: Seq<char>,
    f: Seq<char>,
    b: Seq<char>,
)
    requires
        scan_inv(st),
    ensures
        scan_inv(emit(st, p, f, b)),
        forall|k: Seq<char>| st.1.contains(k) ==> #[trigger] emit(st, p, f, b).1.contains(k),
{
    if !st.1.contains(dedup_key(p)) {
        let post = emit(st, p, f, b);
        assert forall|i: int, j: int|
            0 <= i < j < post.0.len() implies dedup_key(post.0[i].0) != dedup_key(
            post.0[j].0,
        ) by {
            if j < st.0.len() {
            } else {
                assert(post.0[j] == (p, f, b));
                if dedup_key(post.0[i].0) == dedup_key(p) {
                    assert(st.1.contains(dedup_key(st.0[i].0)));
                }
            }
        }
        assert forall|i: int| 0 <= i < post.0.len() implies post.1.contains(
            dedup_key(#[trigger] post.0[i].0),
        ) by {
            lemma_contains_push(st.1, dedup_key(p), dedup_key(post.0[i].0));
            if i < st.0.len() {
                assert(st.1.contains(dedup_key(st.0[i].0)));
            }
        }
        assert forall|k: Seq<char>| st.1.contains(k) implies #[trigger] post.1.contains(k) by {
            lemma_contains_push(st.1, dedup_key(p), k);
        }
    }
}

/// `scan_dir_step` preserves the deduplication invariant.
proof fn lemma_scan_dir_step_inv(
    st: (Seq<(Seq<char>, Seq<char>, Seq<char>)>, Seq<Seq<char>>),
    d: DirTree,
    label: Seq<char>,
)
    requires
        scan_inv(st),
    ensures
        scan_inv(scan_dir_step(st, d, label)),
{
    if !is_hidden(d.name@) && !is_excluded_name(d.name@) && tree_save_like(d) {
        lemma_emit_inv(st, d.path@, d.name@, label);
    }
}

/// `scan_dirs` preserves the deduplication invariant.
proof fn lemma_scan_dirs_inv(
    st: (Seq<(Seq<char>, Seq<char>, Seq<char>)>, Seq<Seq<char>>),
    ds: Seq<DirTree>,
    label: Seq<char>,
)
    requires
        scan_inv(st),
    ensures
        scan_inv(scan_dirs(st, ds, label)),
    decreases ds.len(),
{
    if ds.len() > 0 {
        lemma_scan_dirs_inv(st, ds.drop_last(), label);
        lemma_scan_dir_step_inv(scan_dirs(st, ds.drop_last(), label), ds.last(), label);
    }
}

/// `merge_new` preserves the deduplication invariant.
proof fn lemma_merge_new_inv(
    st: (Seq<(Seq<char>, Seq<char>, Seq<char>)>, Seq<Seq<char>>),
    cs: Seq<(Seq<char>, Seq<char>, Seq<char>)>,
)
    requires
        scan_inv(st),
    ensures
        scan_inv(merge_new(st, cs)),
    decreases cs.len(),
{
    if cs.len() > 0 {
        lemma_merge_new_inv(st, cs.drop_last());
        lemma_emit_inv(merge_new(st, cs.drop_last()), cs.last().0, cs.last().1, cs.last().2);
    }
}

/// `libs_fold` preserves the deduplication invariant.
proof fn lemma_libs_fold_inv(
    st: (Seq<(Seq<char>, Seq<char>, Seq<char>)>, Seq<Seq<char>>),
    libs: Seq<(String, DirTree)>,
)
    requires
        scan_inv(st),
    ensures
        scan_inv(libs_fold(st, libs)),
    decreases libs.len(),
{
    if libs.len() > 0 {
        lemma_libs_fold_inv(st, libs.drop_last());
        lemma_merge_new_inv(
            libs_fold(st, libs.drop_last()),
            library_cands(libs.last().1.subdirs@, libs.last().0@),
        );
    }
}

/// The Steam scan preserves the deduplication invariant.
proof fn lemma_scan_steam_inv(
    st: (Seq<(Seq<char>, Seq<char>, Seq<char>)>, Seq<Seq<char>>),
    userdata: Option<DirTree>,
    root_common: Option<DirTree>,
    root: Seq<char>,
    libs: Seq<(String, DirTree)>,
)
    requires
        scan_inv(st),
    ensures
        scan_inv(scan_steam_spec(st, userdata, root_common, root, libs)),
{
    let st1 = match userdata {
        Option::Some(u) => merge_new(st, userdata_cands(u.subdirs@)),
        Option::None => st,
    };
    match userdata {
        Option::Some(u) => lemma_merge_new_inv(st, userdata_cands(u.subdirs@)),
        Option::None => (),
    }
    let st2 = match root_common {
        Option::Some(c) => merge_new(st1, library_cands(c.subdirs@, root)),
        Option::None => st1,
    };
    match root_common {
        Option::Some(c) => lemma_merge_new_inv(st1, library_cands(c.subdirs@, root)),
        Option::None => (),
    }
    lemma_libs_fold_inv(st2, libs);
}

/// `crack_dirs` preserves the deduplication invariant.
proof fn lemma_crack_dirs_inv(
    st: (Seq<(Seq<char>, Seq<char>, Seq<char>)>, Seq<Seq<char>>),
    ds: Seq<DirTree>,
    label: Seq<char>,
    base: Seq<char>,
)
    requires
        scan_inv(st),
    ensures
        scan_inv(crack_dirs(st, ds, label, base)),
    decreases ds.len(),
{
    if ds.len() > 0 {
        lemma_crack_dirs_inv(st, ds.drop_last(), label, base);
        let p = crack_dirs(st, ds.drop_last(), label, base);
        let d = ds.last();
        if !is_hidden(d.name@) && !skip_settings(d.name@) && contains_saves_spec(d, 0) {
            lemma_emit_inv(p, d.path@, label + " — "@ + d.name@, label + " ("@ + base + ")"@);
        }
    }
}

/// `crack_locs` preserves the deduplication invariant.
proof fn lemma_crack_locs_inv(
    st: (Seq<(Seq<char>, Seq<char>, Seq<char>)>, Seq<Seq<char>>),
    locs: Seq<CrackLocation>,
)
    requires
        scan_inv(st),
    ensures
        scan_inv(crack_locs(st, locs)),
    decreases locs.len(),
{
    if locs.len() > 0 {
        lemma_crack_locs_inv(st, locs.drop_last());
        lemma_crack_dirs_inv(
            crack_locs(st, locs.drop_last()),
            locs.last().tree.subdirs@,
            locs.last().label@,
            locs.last().base_path@,
        );
    }
}

/// `bases_fold` preserves the deduplication invariant.
proof fn lemma_bases_fold_inv(
    st: (Seq<(Seq<char>, Seq<char>, Seq<char>)>, Seq<Seq<char>>),
    bases: Seq<(String, DirTree)>,
)
    requires
        scan_inv(st),
    ensures
        scan_inv(bases_fold(st, bases)),
    decreases bases.len(),
{
    if bases.len() > 0 {
        lemma_bases_fold_inv(st, bases.drop_last());
        lemma_scan_dirs_inv(
            bases_fold(st, bases.drop_last()),
            bases.last().1.subdirs@,
            bases.last().0@,
        );
    }
}

/// `customs_fold` preserves the deduplication invariant.
proof fn lemma_customs_fold_inv(
    st: (Seq<(Seq<char>, Seq<char>, Seq<char>)>, Seq<Seq<char>>),
    customs: Seq<DirTree>,
)
    requires
        scan_inv(st),
    ensures
        scan_inv(customs_fold(st, customs)),
    decreases customs.len(),
{
    if customs.len() > 0 {
        lemma_customs_fold_inv(st, customs.drop_last());
        lemma_scan_dirs_inv(
            customs_fold(st, customs.drop_last()),
            customs.last().subdirs@,
            custom_label(),
        );
    }
}

/// The unsorted scan result satisfies the deduplication invariant.
proof fn lemma_scan_all_unsorted_inv(s: ScanSnapshot)
    ensures
        scan_inv(scan_all_unsorted(s)),
{
    let st0 = (Seq::<(Seq<char>, Seq<char>, Seq<char>)>::empty(), Seq::<Seq<char>>::empty());
    lemma_bases_fold_inv(st0, s.bases@);
    let st1 = bases_fold(st0, s.bases@);
    match s.steam {
        Option::Some(ss) => lemma_scan_steam_inv(
            st1,
            ss.userdata,
            ss.root_common,
            ss.root_path@,
            ss.libraries@,
        ),
        Option::None => (),
    }
    let st2 = match s.steam {
        Option::Some(ss) => scan_steam_spec(
            st1,
            ss.userdata,
            ss.root_common,
            ss.root_path@,
            ss.libraries@,
        ),
        Option::None => st1,
    };
    lemma_crack_locs_inv(st2, s.cracks@);
    lemma_customs_fold_inv(crack_locs(st2, s.cracks@), s.customs@);
}

/// The position `insort` inserts at: the first element sorting strictly
/// after the new one.
spec fn first_gt(
    s: Seq<(Seq<char>, Seq<char>, Seq<char>)>,
    c: (Seq<char>, Seq<char>, Seq<char>),
) -> int
    decreases s.len(),
{
    if s.len() == 0 {
        0
    } else if cand_gt(s[0], c) {
        0
    } else {
        1 + first_gt(s.drop_first(), c)
    }
}

/// `first_gt` is a valid insertion position.
proof fn lemma_first_gt(
    s: Seq<(Seq<char>, Seq<char>, Seq<char>)>,
    c: (Seq<char>, Seq<char>, Seq<char>),
)
    ensures
        0 <= first_gt(s, c) <= s.len(),
        forall|j: int| 0 <= j < first_gt(s, c) ==> !cand_gt(s[j], c),
        first_gt(s, c) == s.len() || cand_gt(s[first_gt(s, c)], c),
    decreases s.len(),
{
    if s.len() > 0 && !cand_gt(s[0], c) {
        lemma_first_gt(s.drop_first(), c);
        assert forall|j: int| 0 <= j < first_gt(s, c) implies !cand_gt(s[j], c) by {
            if j > 0 {
                assert(s.drop_first()[j - 1] == s[j]);
            }
        }
        if first_gt(s, c) < s.len() {
            assert(s.drop_first()[first_gt(s, c) - 1] == s[first_gt(s, c)]);
        }
    }
}

/// `insort` in explicit form: the sequence around the insertion position.
proof fn lemma_insort_form(
    s: Seq<(Seq<char>, Seq<char>, Seq<char>)>,
    c: (Seq<char>, Seq<char>, Seq<char>),
)
    ensures
        insort(s, c) == s.take(first_gt(s, c)) + seq![c] + s.skip(first_gt(s, c)),
{
    lemma_first_gt(s, c);
    lemma_insort_at(s, c, first_gt(s, c));
}

/// The members of `insort(s, c)` are the members of `s` plus `c`.
proof fn lemma_insort_contains(
    s: Seq<(Seq<char>, Seq<char>, Seq<char>)>,
    c: (Seq<char>, Seq<char>, Seq<char>),
    x: (Seq<char>, Seq<char>, Seq<char>),
)
    ensures
        insort(s, c).contains(x) == (s.contains(x) || x == c),
{
    lemma_insort_form(s, c);
    lemma_first_gt(s, c);
    let k = first_gt(s, c);
    let ins = insort(s, c);
    if s.contains(x) {
        let i = choose|i: int| 0 <= i < s.len() && s[i] == x;
        if i < k {
            assert(ins[i] == x);
        } else {
            assert(ins[i + 1] == x);
        }
    }
    if x == c {
        assert(ins[k] == x);
    }
    if ins.contains(x) {
        let m = choose|m: int| 0 <= m < ins.len() && ins[m] == x;
        if m < k {
            assert(s[m] == x);
        } else if m == k {
            assert(x == c);
        } else {
            assert(ins[m] == s[m - 1]);
            assert(s[m - 1] == x);
        }
    }
}

/// `insort` keeps keys distinct when the new key is fresh.
proof fn lemma_insort_nodup(
    s: Seq<(Seq<char>, Seq<char>, Seq<char>)>,
    c: (Seq<char>, Seq<char>, Seq<char>),
)
    requires
        nodup_keys(s),
        forall|i: int| 0 <= i < s.len() ==> dedup_key(#[trigger] s[i].0) != dedup_key(c.0),
    ensures
        nodup_keys(insort(s, c)),
{
    lemma_insort_form(s, c);
    lemma_first_gt(s, c);
    let k = first_gt(s, c);
    let ins = insort(s, c);
    assert forall|i: int, j: int|
        0 <= i < j < ins.len() implies dedup_key(ins[i].0) != dedup_key(ins[j].0) by {
        let oi: int = if i < k {
            i
        } else {
            i - 1
        };
        let oj: int = if j < k {
            j
        } else {
            j - 1
        };
        if i < k {
            assert(ins[i] == s[i]);
        } else if i > k {
            assert(ins[i] == s[i - 1]);
        }
        if j < k {
            assert(ins[j] == s[j]);
        } else if j > k {
            assert(ins[j] == s[j - 1]);
        }
        if i == k {
            assert(ins[j] == s[j - 1]);
        } else if j == k {
            assert(ins[i] == s[i]);
        }
    }
}

/// Sorting neither invents nor drops members.
proof fn lemma_sort_contains(
    s: Seq<(Seq<char>, Seq<char>, Seq<char>)>,
    x: (Seq<char>, Seq<char>, Seq<char>),
)
    ensures
        sort_cands(s).contains(x) == s.contains(x),
    decreases s.len(),
{
    if s.len() > 0 {
        let t = s.drop_last();
        lemma_sort_contains(t, x);
        lemma_insort_contains(sort_cands(t), s.last(), x);
        if t.contains(x) {
            let i = choose|i: int| 0 <= i < t.len() && t[i] == x;
            assert(s[i] == x);
        }
        if x == s.last() {
            assert(s[s.len() - 1] == x);
        }
        if s.contains(x) {
            let i = choose|i: int| 0 <= i < s.len() && s[i] == x;
            if i < s.len() - 1 {
                assert(t[i] == x);
            }
        }
    }
}

/// Sorting keeps keys pairwise distinct.
proof fn lemma_sort_nodup(s: Seq<(Seq<char>, Seq<char>, Seq<char>)>)
    requires
        nodup_keys(s),
    ensures
        nodup_keys(sort_cands(s)),
    decreases s.len(),
{
    if s.len() > 0 {
        let t = s.drop_last();
        let sorted_t = sort_cands(t);
        assert(nodup_keys(t)) by {
            assert forall|i: int, j: int|
                0 <= i < j < t.len() implies dedup_key(t[i].0) != dedup_key(t[j].0) by {
                assert(t[i] == s[i]);
                assert(t[j] == s[j]);
            }
        }
        lemma_sort_nodup(t);
        assert forall|i: int|
            0 <= i < sorted_t.len() implies dedup_key(#[trigger] sorted_t[i].0) != dedup_key(
            s.last().0,
        ) by {
            assert(sorted_t.contains(sorted_t[i]));
            lemma_sort_contains(t, sorted_t[i]);
            let m = choose|m: int| 0 <= m < t.len() && t[m] == sorted_t[i];
            assert(t[m] == s[m]);
            assert(dedup_key(s[m].0) != dedup_key(s[s.len() - 1].0));
        }
        lemma_insort_nodup(sorted_t, s.last());
    }
}

/// Strict lexicographic order is asymmetric, and unequal.
proof fn lemma_seq_lt_asym(a: Seq<char>, b: Seq<char>)
    ensures
        seq_lt(a, b) ==> !seq_lt(b, a) && a != b,
    decreases a.len(),
{
    if seq_lt(a, b) {
        if a.len() > 0 && b.len() > 0 && a[0] == b[0] {
            lemma_seq_lt_asym(a.drop_first(), b.drop_first());
            assert(a != b) by {
                if a == b {
                    assert(a.drop_first() == b.drop_first());
                }
            }
        }
    }
}

/// The candidate order is asymmetric.
proof fn lemma_cand_gt_asym(
    x: (Seq<char>, Seq<char>, Seq<char>),
    c: (Seq<char>, Seq<char>, Seq<char>),
)
    ensures
        cand_gt(x, c) ==> !cand_gt(c, x),
{
    lemma_seq_lt_asym(c.2, x.2);
    lemma_seq_lt_asym(x.2, c.2);
    lemma_seq_lt_asym(c.1, x.1);
    lemma_seq_lt_asym(x.1, c.1);
}

/// Adjacent candidates are in order: none sorts strictly after its
/// successor.
pub open spec fn cands_sorted(s: Seq<(Seq<char>, Seq<char>, Seq<char>)>) -> bool {
    forall|i: int| 0 <= i < s.len() - 1 ==> !cand_gt(#[trigger] s[i], s[i + 1])
}

/// Insertion keeps the list sorted.
proof fn lemma_insort_sorted(
    s: Seq<(Seq<char>, Seq<char>, Seq<char>)>,
    c: (Seq<char>, Seq<char>, Seq<char>),
)
    requires
        cands_sorted(s),
    ensures
        cands_sorted(insort(s, c)),
{
    lemma_insort_form(s, c);
    lemma_first_gt(s, c);
    let k = first_gt(s, c);
    let ins = insort(s, c);
    assert forall|i: int| 0 <= i < ins.len() - 1 implies !cand_gt(#[trigger] ins[i], ins[i + 1]) by {
        if i + 1 < k {
            assert(ins[i] == s[i]);
            assert(ins[i + 1] == s[i + 1]);
        } else if i + 1 == k {
            assert(ins[i] == s[i]);
            assert(ins[i + 1] == c);
        } else if i == k {
            assert(ins[i] == c);
            assert(ins[i + 1] == s[i]);
            assert(cand_gt(s[k], c));
            lemma_cand_gt_asym(s[k], c);
        } else {
            assert(ins[i] == s[i - 1]);
            assert(ins[i + 1] == s[i]);
        }
    }
}

/// Insertion sort sorts.
proof fn lemma_sort_sorted(s: Seq<(Seq<char>, Seq<char>, Seq<char>)>)
    ensures
        cands_sorted(sort_cands(s)),
    decreases s.len(),
{
    if s.len() > 0 {
        lemma_sort_sorted(s.drop_last());
        lemma_insort_sorted(sort_cands(s.drop_last()), s.last());
    }
}

/// Scanning is deterministic, hence idempotent: two scans over the same
/// snapshot — an unchanged filesystem and configuration — give the same
/// candidates in the same order.
pub proof fn lemma_scan_idempotent(a: ScanSnapshot, b: ScanSnapshot)
    requires
        a == b,
    ensures
        scan_all_spec(a) == scan_all_spec(b),
{
}

/// The scan deduplicates by lower-cased path: no two candidates of one scan
/// share a key, so base locations resolving to paths differing only by case
/// contribute exactly one candidate.
pub proof fn lemma_scan_deduplicates(s: ScanSnapshot)
    ensures
        nodup_keys(scan_all_spec(s)),
{
    lemma_scan_all_unsorted_inv(s);
    lemma_sort_nodup(scan_all_unsorted(s).0);
}

/// The scan's output is ordered by base-path label, then folder name.
pub proof fn lemma_scan_ordered(s: ScanSnapshot)
    ensures
        cands_sorted(scan_all_spec(s)),
{
    lemma_sort_sorted(scan_all_unsorted(s).0);
}

} // verus!
