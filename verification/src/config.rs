//! Configuration snapshot: registered games with their raw path strings,
//! API endpoint settings and custom scan roots. The surrounding application
//! loads and persists the snapshot; this module holds the verified commands
//! that read and transform it: lookup, adding and removing games, defaults
//! from the environment, and the merge import.

use vstd::prelude::*;

use crate::expand::{expand_path, expand_path_spec};
use crate::text::{
    chars_of, ends_with_spec, eq_chars, join2, lower, lower_chars, string_from_chars, trim_chars,
    trim_spec,
};

verus! {

/// One registered game: a case-insensitively unique identifier, its raw
/// (unexpanded) save paths in order, and optional store identifier and
/// image reference.
#[derive(Debug)]
pub struct ConfiguredGame {
    pub id: String,
    pub paths: Vec<String>,
    pub steam_app_id: Option<String>,
    pub image_url: Option<String>,
}

/// The configuration snapshot the application hands the library.
#[derive(Debug)]
pub struct Config {
    pub api_base_url: Option<String>,
    pub api_key: Option<String>,
    pub user_id: Option<String>,
    pub games: Vec<ConfiguredGame>,
    pub custom_scan_paths: Vec<String>,
}

/// A game as the presentation layer sees it, with the store identifier
/// resolved where the configuration left it open.
pub struct GameDto {
    pub id: String,
    pub paths: Vec<String>,
    pub steam_app_id: Option<String>,
    pub image_url: Option<String>,
}

/// The configuration as the presentation layer sees it.
pub struct ConfigDto {
    pub api_base_url: Option<String>,
    pub api_key: Option<String>,
    pub user_id: Option<String>,
    pub games: Vec<GameDto>,
    pub custom_scan_paths: Vec<String>,
}

/// The view of one game: identifier, paths, store identifier, image.
pub open spec fn game_view(g: ConfiguredGame) -> (
    Seq<char>,
    Seq<Seq<char>>,
    Option<Seq<char>>,
    Option<Seq<char>>,
) {
    (g.id@, g.paths.deep_view(), g.steam_app_id.deep_view(), g.image_url.deep_view())
}

/// The views of a game list.
pub open spec fn games_view(gs: Seq<ConfiguredGame>) -> Seq<
    (Seq<char>, Seq<Seq<char>>, Option<Seq<char>>, Option<Seq<char>>),
> {
    Seq::new(gs.len(), |i: int| game_view(gs[i]))
}

/// Identifiers match case-insensitively.
pub open spec fn id_matches(a: Seq<char>, b: Seq<char>) -> bool {
    lower(a) == lower(b)
}

/// Index of the first game whose identifier matches `id`, searching from
/// `from`.
pub open spec fn find_game_from(
    gs: Seq<(Seq<char>, Seq<Seq<char>>, Option<Seq<char>>, Option<Seq<char>>)>,
    id: Seq<char>,
    from: int,
) -> Option<int>
    decreases gs.len() - from,
{
    if from < 0 || from >= gs.len() {
        Option::None
    } else if id_matches(gs[from].0, id) {
        Option::Some(from)
    } else {
        find_game_from(gs, id, from + 1)
    }
}

/// Finds the first game whose identifier matches `game_id`,
/// case-insensitively.
pub fn find_game_index(games: &Vec<ConfiguredGame>, game_id: &str) -> (r: Option<usize>)
    ensures
        match r {
            Some(i) => find_game_from(games_view(games@), game_id@, 0) == Option::Some(i as int)
                && i < games@.len(),
            None => find_game_from(games_view(games@), game_id@, 0) is None,
        },
{
    let target = lower_chars(&chars_of(game_id));
    let ghost gv = games_view(games@);
    let mut i: usize = 0;
    while i < games.len()
        invariant
            0 <= i <= games@.len(),
            gv == games_view(games@),
            target@ == lower(game_id@),
            find_game_from(gv, game_id@, 0) == find_game_from(gv, game_id@, i as int),
        decreases games@.len() - i,
    {
        let gid = lower_chars(&chars_of(games[i].id.as_str()));
        if eq_chars(&gid, &target) {
            assert(id_matches(gv[i as int].0, game_id@));
            assert(find_game_from(gv, game_id@, i as int) == Option::Some(i as int));
            return Some(i);
        }
        assert(!id_matches(gv[i as int].0, game_id@));
        assert(find_game_from(gv, game_id@, i as int) == find_game_from(gv, game_id@, i as int + 1));
        i += 1;
    }
    None
}

/// Registers a path under a game: an existing game (matched
/// case-insensitively) gains the path unless it already has it; an unknown
/// identifier gains a fresh entry. Empty identifier or path, after
/// trimming, is rejected.
pub fn add_game(cfg: Config, game_id: &str, path: &str) -> (r: Result<Config, String>)
    ensures
        match r {
            Ok(out) => {
                let tid = trim_spec(game_id@);
                let tp = trim_spec(path@);
                &&& tid.len() > 0
                &&& tp.len() > 0
                &&& out.api_base_url == cfg.api_base_url
                &&& out.api_key == cfg.api_key
                &&& out.user_id == cfg.user_id
                &&& out.custom_scan_paths == cfg.custom_scan_paths
                &&& match find_game_from(games_view(cfg.games@), tid, 0) {
                    Option::Some(i) => {
                        &&& out.games@.len() == cfg.games@.len()
                        &&& forall|j: int|
                            0 <= j < cfg.games@.len() && j != i ==> out.games@[j] == cfg.games@[j]
                        &&& game_view(out.games@[i]).0 == game_view(cfg.games@[i]).0
                        &&& game_view(out.games@[i]).2 == game_view(cfg.games@[i]).2
                        &&& game_view(out.games@[i]).3 == game_view(cfg.games@[i]).3
                        &&& game_view(out.games@[i]).1 == if game_view(cfg.games@[i]).1.contains(
                            tp,
                        ) {
                            game_view(cfg.games@[i]).1
                        } else {
                            game_view(cfg.games@[i]).1.push(tp)
                        }
                    },
                    Option::None => {
                        &&& out.games@.len() == cfg.games@.len() + 1
                        &&& forall|j: int|
                            0 <= j < cfg.games@.len() ==> out.games@[j] == cfg.games@[j]
                        &&& game_view(out.games@.last()) == (
                            tid,
                            seq![tp],
                            Option::<Seq<char>>::None,
                            Option::<Seq<char>>::None,
                        )
                    },
                }
            },
            Err(e) => (trim_spec(game_id@).len() == 0 || trim_spec(path@).len() == 0) && e@
                == "gameId and path are required"@,
        },
{
    let tid = trim_chars(&chars_of(game_id));
    let tp = trim_chars(&chars_of(path));
    if tid.len() == 0 || tp.len() == 0 {
        return Err("gameId and path are required".to_owned());
    }
    let tid_s = string_from_chars(&tid);
    let tp_s = string_from_chars(&tp);
    let mut out = cfg;
    match find_game_index(&out.games, tid_s.as_str()) {
        Some(i) => {
            let mut g = out.games.remove(i);
            let mut found: bool = false;
            let mut k: usize = 0;
            while !found && k < g.paths.len()
                invariant
                    k <= g.paths@.len(),
                    tp_s@ == trim_spec(path@),
                    found ==> g.paths.deep_view().contains(trim_spec(path@)),
                    !found ==> !g.paths.deep_view().take(k as int).contains(trim_spec(path@)),
                decreases g.paths@.len() - k + (if found {
                    0int
                } else {
                    1int
                }),
            {
                let pk = chars_of(g.paths[k].as_str());
                let tpv = chars_of(tp_s.as_str());
                proof {
                    lemma_contains_take_step(g.paths.deep_view(), k as int, trim_spec(path@));
                }
                if eq_chars(&pk, &tpv) {
                    found = true;
                    assert(g.paths.deep_view().contains(trim_spec(path@))) by {
                        assert(g.paths.deep_view()[k as int] == trim_spec(path@));
                    }
                } else {
                    k += 1;
                }
            }
            proof {
                if !found {
                    assert(g.paths.deep_view().take(g.paths.deep_view().len() as int)
                        =~= g.paths.deep_view());
                }
            }
            if !found {
                crate::text::push_name(&mut g.paths, &tp_s);
            }
            let ghost gv_new = game_view(g);
            out.games.insert(i, g);
            proof {
                assert(out.games@ == cfg.games@.remove(i as int).insert(i as int, g));
                assert forall|j: int|
                    0 <= j < cfg.games@.len() && j != i implies out.games@[j] == cfg.games@[j] by {
                    if j < i {
                        assert(cfg.games@.remove(i as int)[j] == cfg.games@[j]);
                    } else {
                        assert(cfg.games@.remove(i as int)[j - 1] == cfg.games@[j]);
                    }
                }
                assert(out.games@[i as int] == g);
            }
            Ok(out)
        },
        None => {
            let g = ConfiguredGame {
                id: tid_s,
                paths: {
                    let mut v: Vec<String> = Vec::new();
                    crate::text::push_name(&mut v, &tp_s);
                    assert(v.deep_view() =~= seq![trim_spec(path@)]);
                    v
                },
                steam_app_id: None,
                image_url: None,
            };
            out.games.push(g);
            Ok(out)
        },
    }
}

/// A step of searching a prefix for membership.
proof fn lemma_contains_take_step(s: Seq<Seq<char>>, k: int, x: Seq<char>)
    requires
        0 <= k < s.len(),
    ensures
        s.take(k + 1).contains(x) == (s.take(k).contains(x) || s[k] == x),
{
    if s.take(k).contains(x) {
        let i = choose|i: int| 0 <= i < k && s.take(k)[i] == x;
        assert(s.take(k + 1)[i] == x);
    }
    if s[k] == x {
        assert(s.take(k + 1)[k] == x);
    }
    if s.take(k + 1).contains(x) {
        let t = s.take(k + 1);
        let i = choose|i: int| 0 <= i < t.len() && t[i] == x;
        if i < k {
            assert(s.take(k)[i] == x);
        }
    }
}

/// True when the list contains the string, by view.
pub fn list_contains(list: &Vec<String>, x: &Vec<char>) -> (r: bool)
    ensures
        r == list.deep_view().contains(x@),
{
    let mut i: usize = 0;
    while i < list.len()
        invariant
            i <= list@.len(),
            forall|j: int| 0 <= j < i ==> list.deep_view()[j] != x@,
        decreases list@.len() - i,
    {
        let e = chars_of(list[i].as_str());
        if eq_chars(&e, x) {
            assert(list.deep_view()[i as int] == x@);
            return true;
        }
        i += 1;
    }
    assert(!list.deep_view().contains(x@));
    false
}

/// The paths kept when one is removed: every entry other than `p`, in
/// order.
pub open spec fn keep_not_equal(ps: Seq<Seq<char>>, p: Seq<char>) -> Seq<Seq<char>>
    decreases ps.len(),
{
    if ps.len() == 0 {
        Seq::empty()
    } else {
        keep_not_equal(ps.drop_last(), p) + if ps.last() == p {
            Seq::<Seq<char>>::empty()
        } else {
            seq![ps.last()]
        }
    }
}

/// Unregisters a game or one of its paths. With a path, the path is removed
/// from the matched game, and the game disappears when its last path goes;
/// without one, the whole game disappears. An unknown identifier is
/// rejected.
pub fn remove_game(cfg: Config, game_id: &str, path: Option<&str>) -> (r: Result<Config, String>)
    ensures
        match r {
            Ok(out) => {
                let tid = trim_spec(game_id@);
                &&& find_game_from(games_view(cfg.games@), tid, 0) matches Option::Some(i) && {
                    let kept = match path {
                        Option::Some(p) => keep_not_equal(
                            game_view(cfg.games@[i]).1,
                            trim_spec(p@),
                        ),
                        Option::None => Seq::<Seq<char>>::empty(),
                    };
                    &&& out.api_base_url == cfg.api_base_url
                    &&& out.api_key == cfg.api_key
                    &&& out.user_id == cfg.user_id
                    &&& out.custom_scan_paths == cfg.custom_scan_paths
                    &&& if kept.len() == 0 {
                        &&& out.games@ == cfg.games@.remove(i)
                    } else {
                        &&& out.games@.len() == cfg.games@.len()
                        &&& forall|j: int|
                            0 <= j < cfg.games@.len() && j != i ==> out.games@[j] == cfg.games@[j]
                        &&& game_view(out.games@[i]).0 == game_view(cfg.games@[i]).0
                        &&& game_view(out.games@[i]).1 == kept
                        &&& game_view(out.games@[i]).2 == game_view(cfg.games@[i]).2
                        &&& game_view(out.games@[i]).3 == game_view(cfg.games@[i]).3
                    }
                }
            },
            Err(e) => find_game_from(games_view(cfg.games@), trim_spec(game_id@), 0) is None && e@
                == "Juego no encontrado: "@ + trim_spec(game_id@),
        },
{
    let tid = trim_chars(&chars_of(game_id));
    let tid_s = string_from_chars(&tid);
    let mut out = cfg;
    let idx = match find_game_index(&out.games, tid_s.as_str()) {
        Some(i) => i,
        None => {
            return Err(join2("Juego no encontrado: ", tid_s.as_str()));
        },
    };
    match path {
        Some(p) => {
            let tp = trim_chars(&chars_of(p));
            let mut g = out.games.remove(idx);
            let ghost old_paths = g.paths.deep_view();
            let mut kept: Vec<String> = Vec::new();
            let mut k: usize = 0;
            while k < g.paths.len()
                invariant
                    k <= g.paths@.len(),
                    old_paths == g.paths.deep_view(),
                    tp@ == trim_spec(p@),
                    kept.deep_view() == keep_not_equal(old_paths.take(k as int), trim_spec(p@)),
                decreases g.paths@.len() - k,
            {
                let pk = chars_of(g.paths[k].as_str());
                proof {
                    assert(old_paths.take(k as int + 1).drop_last() =~= old_paths.take(k as int));
                    assert(old_paths.take(k as int + 1).last() == old_paths[k as int]);
                }
                if !eq_chars(&pk, &tp) {
                    crate::text::push_name(&mut kept, &g.paths[k]);
                    assert(kept.deep_view() =~= keep_not_equal(
                        old_paths.take(k as int),
                        trim_spec(p@),
                    ) + seq![old_paths[k as int]]);
                } else {
                    assert(kept.deep_view() =~= keep_not_equal(
                        old_paths.take(k as int),
                        trim_spec(p@),
                    ) + Seq::<Seq<char>>::empty());
                }
                k += 1;
            }
            proof {
                assert(old_paths.take(old_paths.len() as int) =~= old_paths);
            }
            if kept.len() == 0 {
                return Ok(out);
            }
            g.paths = kept;
            out.games.insert(idx, g);
            proof {
                assert forall|j: int|
                    0 <= j < cfg.games@.len() && j != idx implies out.games@[j]
                    == cfg.games@[j] by {
                    if j < idx {
                        assert(cfg.games@.remove(idx as int)[j] == cfg.games@[j]);
                    } else {
                        assert(cfg.games@.remove(idx as int)[j - 1] == cfg.games@[j]);
                    }
                }
                assert(out.games@[idx as int] == g);
            }
            Ok(out)
        },
        None => {
            let _removed = out.games.remove(idx);
            Ok(out)
        },
    }
}

/// `a` extended by the members of `b` it lacks, in `b`'s order; `b`'s own
/// duplicates collapse onto their first occurrence.
pub open spec fn merged_paths(a: Seq<Seq<char>>, b: Seq<Seq<char>>) -> Seq<Seq<char>>
    decreases b.len(),
{
    if b.len() == 0 {
        a
    } else {
        merged_paths(
            if a.contains(b[0]) {
                a
            } else {
                a.push(b[0])
            },
            b.drop_first(),
        )
    }
}

/// Appends to `acc` the members of `more` it lacks.
pub fn merge_paths(acc: &mut Vec<String>, more: Vec<String>)
    ensures
        final(acc).deep_view() == merged_paths(old(acc).deep_view(), more.deep_view()),
{
    let mut rest = more;
    while rest.len() > 0
        invariant
            merged_paths(acc.deep_view(), rest.deep_view()) == merged_paths(
                old(acc).deep_view(),
                more.deep_view(),
            ),
        decreases rest@.len(),
    {
        let ghost before = rest.deep_view();
        let p = rest.remove(0);
        proof {
            assert(before =~= seq![p@] + rest.deep_view());
            assert(before.drop_first() =~= rest.deep_view());
            assert(before[0] == p@);
        }
        let pv = chars_of(p.as_str());
        if !list_contains(acc, &pv) {
            crate::text::push_name(acc, &p);
        }
    }
    proof {
        assert(rest.deep_view() =~= Seq::<Seq<char>>::empty());
    }
}

/// An existing game merged with an imported one: the identifier and the
/// paths already present stay; missing paths are appended; the store
/// identifier and the image are filled only where absent.
pub open spec fn merged_gv(
    e: (Seq<char>, Seq<Seq<char>>, Option<Seq<char>>, Option<Seq<char>>),
    imp: (Seq<char>, Seq<Seq<char>>, Option<Seq<char>>, Option<Seq<char>>),
) -> (Seq<char>, Seq<Seq<char>>, Option<Seq<char>>, Option<Seq<char>>) {
    (
        e.0,
        merged_paths(e.1, imp.1),
        if e.2 is Some {
            e.2
        } else {
            imp.2
        },
        if e.3 is Some {
            e.3
        } else {
            imp.3
        },
    )
}

/// Merging one imported game: an entry with a matching identifier is merged
/// in place; an unknown identifier is appended.
pub open spec fn merge_one(
    gs: Seq<(Seq<char>, Seq<Seq<char>>, Option<Seq<char>>, Option<Seq<char>>)>,
    imp: (Seq<char>, Seq<Seq<char>>, Option<Seq<char>>, Option<Seq<char>>),
) -> Seq<(Seq<char>, Seq<Seq<char>>, Option<Seq<char>>, Option<Seq<char>>)> {
    match find_game_from(gs, imp.0, 0) {
        Option::Some(i) => gs.update(i, merged_gv(gs[i], imp)),
        Option::None => gs.push(imp),
    }
}

/// Merging a whole imported game list, in order.
pub open spec fn merge_games(
    gs: Seq<(Seq<char>, Seq<Seq<char>>, Option<Seq<char>>, Option<Seq<char>>)>,
    imps: Seq<(Seq<char>, Seq<Seq<char>>, Option<Seq<char>>, Option<Seq<char>>)>,
) -> Seq<(Seq<char>, Seq<Seq<char>>, Option<Seq<char>>, Option<Seq<char>>)>
    decreases imps.len(),
{
    if imps.len() == 0 {
        gs
    } else {
        merge_games(merge_one(gs, imps[0]), imps.drop_first())
    }
}

/// Imports a configuration. Mode `replace` adopts the imported snapshot
/// wholesale; mode `merge` merges the imported games into the existing list
/// and appends the custom scan roots not already present; any other mode is
/// rejected.
pub fn import_config(cfg: Config, imported: Config, mode: &str) -> (r: Result<Config, String>)
    ensures
        match r {
            Ok(out) => if mode@ == "replace"@ {
                out == imported
            } else {
                &&& mode@ == "merge"@
                &&& out.api_base_url == cfg.api_base_url
                &&& out.api_key == cfg.api_key
                &&& out.user_id == cfg.user_id
                &&& games_view(out.games@) == merge_games(
                    games_view(cfg.games@),
                    games_view(imported.games@),
                )
                &&& out.custom_scan_paths.deep_view() == merged_paths(
                    cfg.custom_scan_paths.deep_view(),
                    imported.custom_scan_paths.deep_view(),
                )
            },
            Err(e) => mode@ != "replace"@ && mode@ != "merge"@ && e@
                == "mode debe ser 'merge' o 'replace'"@,
        },
{
    let mv = chars_of(mode);
    if eq_chars(&mv, &chars_of("replace")) {
        return Ok(imported);
    }
    if !eq_chars(&mv, &chars_of("merge")) {
        return Err("mode debe ser 'merge' o 'replace'".to_owned());
    }
    let mut out = cfg;
    let mut imps = imported.games;
    let ghost all_imps = games_view(imps@);
    while imps.len() > 0
        invariant
            merge_games(games_view(out.games@), games_view(imps@)) == merge_games(
                games_view(cfg.games@),
                all_imps,
            ),
            out.api_base_url == cfg.api_base_url,
            out.api_key == cfg.api_key,
            out.user_id == cfg.user_id,
            out.custom_scan_paths == cfg.custom_scan_paths,
        decreases imps@.len(),
    {
        let ghost before = games_view(imps@);
        let imp = imps.remove(0);
        proof {
            assert(before =~= seq![game_view(imp)] + games_view(imps@));
            assert(before.drop_first() =~= games_view(imps@));
            assert(before[0] == game_view(imp));
        }
        let ghost gs_before = games_view(out.games@);
        match find_game_index(&out.games, imp.id.as_str()) {
            Some(i) => {
                proof {
                    assert(find_game_from(gs_before, game_view(imp).0, 0) == Option::Some(
                        i as int,
                    ));
                }
                let mut e = out.games.remove(i);
                let ghost ev = game_view(e);
                merge_paths(&mut e.paths, imp.paths);
                e.steam_app_id = match e.steam_app_id {
                    Some(s) => Some(s),
                    None => imp.steam_app_id,
                };
                e.image_url = match e.image_url {
                    Some(s) => Some(s),
                    None => imp.image_url,
                };
                proof {
                    assert(game_view(e) == merged_gv(ev, game_view(imp)));
                }
                out.games.insert(i, e);
                proof {
                    assert(games_view(out.games@) =~= gs_before.update(
                        i as int,
                        merged_gv(gs_before[i as int], game_view(imp)),
                    ));
                }
            },
            None => {
                out.games.push(imp);
                proof {
                    assert(games_view(out.games@) =~= gs_before.push(before[0]));
                }
            },
        }
    }
    proof {
        assert(games_view(imps@) =~= Seq::<
            (Seq<char>, Seq<Seq<char>>, Option<Seq<char>>, Option<Seq<char>>),
        >::empty());
    }
    merge_paths(&mut out.custom_scan_paths, imported.custom_scan_paths);
    Ok(out)
}

/// An imported game with a matching identifier changes the existing entry
/// only by appending the paths it lacks, in order, and by filling the store
/// identifier and the image where the existing entry has none; the
/// identifier and everything already present stay as they were.
pub proof fn lemma_merge_import(
    gs: Seq<(Seq<char>, Seq<Seq<char>>, Option<Seq<char>>, Option<Seq<char>>)>,
    imp: (Seq<char>, Seq<Seq<char>>, Option<Seq<char>>, Option<Seq<char>>),
    i: int,
)
    requires
        find_game_from(gs, imp.0, 0) == Option::Some(i),
        0 <= i < gs.len(),
    ensures
        merge_one(gs, imp).len() == gs.len(),
        forall|j: int| 0 <= j < gs.len() && j != i ==> merge_one(gs, imp)[j] == gs[j],
        merge_one(gs, imp)[i].0 == gs[i].0,
        gs[i].1.is_prefix_of(merge_one(gs, imp)[i].1),
        forall|k: int|
            gs[i].1.len() <= k < merge_one(gs, imp)[i].1.len() ==> imp.1.contains(
                #[trigger] merge_one(gs, imp)[i].1[k],
            ) && !gs[i].1.contains(merge_one(gs, imp)[i].1[k]),
        gs[i].2 is Some ==> merge_one(gs, imp)[i].2 == gs[i].2,
        gs[i].2 is None ==> merge_one(gs, imp)[i].2 == imp.2,
        gs[i].3 is Some ==> merge_one(gs, imp)[i].3 == gs[i].3,
        gs[i].3 is None ==> merge_one(gs, imp)[i].3 == imp.3,
{
    lemma_merged_paths_props(gs[i].1, imp.1);
}

/// A setting that counts as absent: missing, or blank after trimming.
pub open spec fn blank(o: Option<String>) -> bool {
    match o {
        Option::Some(s) => trim_spec(s@).len() == 0,
        Option::None => true,
    }
}

/// True when the optional setting is absent or blank.
pub fn is_blank(o: &Option<String>) -> (r: bool)
    ensures
        r == blank(*o),
{
    match o {
        Some(s) => trim_chars(&chars_of(s.as_str())).len() == 0,
        None => true,
    }
}

/// Fills a blank base URL and API key from environment-supplied defaults;
/// a blank default changes nothing.
pub fn config_with_env_defaults(
    cfg: Config,
    url_env: Option<String>,
    key_env: Option<String>,
) -> (r: Config)
    ensures
        r.user_id == cfg.user_id,
        r.games == cfg.games,
        r.custom_scan_paths == cfg.custom_scan_paths,
        r.api_base_url == if blank(cfg.api_base_url) && !blank(url_env) {
            url_env
        } else {
            cfg.api_base_url
        },
        r.api_key == if blank(cfg.api_key) && !blank(key_env) {
            key_env
        } else {
            cfg.api_key
        },
{
    let mut out = cfg;
    if is_blank(&out.api_base_url) && !is_blank(&url_env) {
        out.api_base_url = url_env;
    }
    if is_blank(&out.api_key) && !is_blank(&key_env) {
        out.api_key = key_env;
    }
    out
}

/// Relies on `dirs::config_dir`: the platform's configuration directory,
/// which depends on the machine and environment, so nothing is promised of
/// the result.
#[verifier::external_body]
fn os_config_dir() -> Option<String> {
    dirs::config_dir().map(|p| p.to_string_lossy().into_owned())
}

/// Relies on `dirs::data_local_dir`: the platform's local data directory;
/// machine-dependent, so nothing is promised of the result.
#[verifier::external_body]
fn os_data_local_dir() -> Option<String> {
    dirs::data_local_dir().map(|p| p.to_string_lossy().into_owned())
}

/// Relies on `dirs::home_dir`: the user's home directory;
/// machine-dependent, so nothing is promised of the result.
#[verifier::external_body]
fn os_home_dir() -> Option<String> {
    dirs::home_dir().map(|p| p.to_string_lossy().into_owned())
}

/// The configuration directory: the platform's configuration, local-data or
/// home directory, in that order of preference, with the application's
/// folder name joined on.
pub fn config_dir() -> (r: Option<String>)
    ensures
        r matches Some(p) ==> ends_with_spec(p@, "/sync-games"@),
{
    let base = match os_config_dir() {
        Some(b) => Some(b),
        None => match os_data_local_dir() {
            Some(b) => Some(b),
            None => os_home_dir(),
        },
    };
    match base {
        Some(b) => {
            let p = join2(b.as_str(), "/sync-games");
            assert(ends_with_spec(p@, "/sync-games"@)) by {
                assert(p@.subrange(p@.len() - "/sync-games"@.len(), p@.len() as int)
                    =~= "/sync-games"@);
            }
            Some(p)
        },
        None => None,
    }
}

/// The full path of the configuration file under the configuration
/// directory.
pub fn config_path() -> (r: Option<String>)
    ensures
        r matches Some(p) ==> ends_with_spec(p@, "/sync-games/config.json"@),
{
    match config_dir() {
        Some(d) => {
            let p = join2(d.as_str(), "/config.json");
            proof {
                reveal_strlit("/sync-games");
                reveal_strlit("/config.json");
                reveal_strlit("/sync-games/config.json");
                let dv = d@;
                let tail = dv.subrange(dv.len() - 11, dv.len() as int);
                assert(tail == "/sync-games"@);
                assert forall|k: int| 0 <= k < 23 implies p@[p@.len() - 23 + k]
                    == "/sync-games/config.json"@[k] by {
                    if k < 11 {
                        assert(p@[p@.len() - 23 + k] == dv[dv.len() - 11 + k]);
                        assert(dv[dv.len() - 11 + k] == tail[k]);
                    } else {
                        assert(p@[p@.len() - 23 + k] == "/config.json"@[k - 11]);
                    }
                }
                assert(p@.subrange(p@.len() - "/sync-games/config.json"@.len(), p@.len() as int)
                    =~= "/sync-games/config.json"@);
            }
            Some(p)
        },
        None => None,
    }
}

/// True when the game has neither a store identifier nor an image, so a
/// resolver lookup is worth attempting.
pub fn wants_appid_resolution(g: &ConfiguredGame) -> (r: bool)
    ensures
        r == (g.steam_app_id is None && g.image_url is None),
{
    match (&g.steam_app_id, &g.image_url) {
        (None, None) => true,
        _ => false,
    }
}

/// Turns one configured game into its presentation form: a configured store
/// identifier wins; otherwise a resolved identifier is taken only when no
/// custom image overrides it.
pub fn game_to_dto(g: ConfiguredGame, resolved: Option<String>) -> (r: GameDto)
    ensures
        r.id == g.id,
        r.paths == g.paths,
        r.image_url == g.image_url,
        r.steam_app_id == (match g.steam_app_id {
            Option::Some(s) => Option::Some(s),
            Option::None => if g.image_url is None {
                resolved
            } else {
                Option::<String>::None
            },
        }),
{
    let has_image: bool = match &g.image_url {
        Some(_) => true,
        None => false,
    };
    let steam_app_id = match g.steam_app_id {
        Some(s) => Some(s),
        None => if !has_image {
            resolved
        } else {
            None
        },
    };
    GameDto { id: g.id, paths: g.paths, steam_app_id, image_url: g.image_url }
}

/// Turns the whole configuration into its presentation form, pairing each
/// game with the resolver's answer for it.
pub fn config_to_dto(cfg: Config, resolved: Vec<Option<String>>) -> (r: ConfigDto)
    requires
        cfg.games@.len() == resolved@.len(),
    ensures
        r.api_base_url == cfg.api_base_url,
        r.api_key == cfg.api_key,
        r.user_id == cfg.user_id,
        r.custom_scan_paths == cfg.custom_scan_paths,
        r.games@.len() == cfg.games@.len(),
        forall|i: int|
            0 <= i < r.games@.len() ==> {
                let g = cfg.games@[i];
                let d = #[trigger] r.games@[i];
                &&& d.id == g.id
                &&& d.paths == g.paths
                &&& d.image_url == g.image_url
                &&& d.steam_app_id == (match g.steam_app_id {
                    Option::Some(s) => Option::Some(s),
                    Option::None => if g.image_url is None {
                        resolved@[i]
                    } else {
                        Option::<String>::None
                    },
                })
            },
{
    let ghost orig_games = cfg.games@;
    let ghost orig_resolved = resolved@;
    let mut games = cfg.games;
    let mut res = resolved;
    let total: usize = games.len();
    let mut out: Vec<GameDto> = Vec::new();
    let mut k: usize = 0;
    while games.len() > 0
        invariant
            total == orig_games.len(),
            k <= total,
            k + games@.len() == orig_games.len(),
            games@ == orig_games.skip(k as int),
            res@ == orig_resolved.skip(k as int),
            orig_games.len() == orig_resolved.len(),
            out@.len() == k,
            forall|i: int|
                0 <= i < k ==> {
                    let g = orig_games[i];
                    let d = #[trigger] out@[i];
                    &&& d.id == g.id
                    &&& d.paths == g.paths
                    &&& d.image_url == g.image_url
                    &&& d.steam_app_id == (match g.steam_app_id {
                        Option::Some(s) => Option::Some(s),
                        Option::None => if g.image_url is None {
                            orig_resolved[i]
                        } else {
                            Option::<String>::None
                        },
                    })
                },
        decreases games@.len(),
    {
        let g = games.remove(0);
        let rv = res.remove(0);
        proof {
            assert(games@ =~= orig_games.skip(k as int + 1));
            assert(res@ =~= orig_resolved.skip(k as int + 1));
            assert(g == orig_games[k as int]);
            assert(rv == orig_resolved[k as int]);
        }
        let d = game_to_dto(g, rv);
        out.push(d);
        k += 1;
    }
    ConfigDto {
        api_base_url: cfg.api_base_url,
        api_key: cfg.api_key,
        user_id: cfg.user_id,
        games: out,
        custom_scan_paths: cfg.custom_scan_paths,
    }
}

/// The first registered path of a game, expanded; the errors name the
/// unknown game, the game without paths, and the path that would not
/// expand.
pub fn get_game_save_path(
    cfg: &Config,
    game_id: &str,
    env: &Vec<(String, String)>,
    home: &Option<String>,
) -> (r: Result<String, String>)
    ensures
        match r {
            Ok(p) => find_game_from(games_view(cfg.games@), game_id@, 0) matches Option::Some(i)
                && game_view(cfg.games@[i]).1.len() > 0 && expand_path_spec(
                trim_spec(game_view(cfg.games@[i]).1[0]),
                env.deep_view(),
                home.deep_view(),
            ) == Option::Some(p@),
            Err(e) => {
                ||| (find_game_from(games_view(cfg.games@), game_id@, 0) is None && e@
                    == "Juego no encontrado: "@ + game_id@)
                ||| (find_game_from(games_view(cfg.games@), game_id@, 0) matches Option::Some(i)
                    && game_view(cfg.games@[i]).1.len() == 0 && e@
                    == "El juego no tiene rutas configuradas"@)
                ||| (find_game_from(games_view(cfg.games@), game_id@, 0) matches Option::Some(i)
                    && game_view(cfg.games@[i]).1.len() > 0 && expand_path_spec(
                    trim_spec(game_view(cfg.games@[i]).1[0]),
                    env.deep_view(),
                    home.deep_view(),
                ) is None && e@ == "No se pudo expandir la ruta"@)
            },
        },
{
    let i = match find_game_index(&cfg.games, game_id) {
        Some(i) => i,
        None => {
            return Err(join2("Juego no encontrado: ", game_id));
        },
    };
    if cfg.games[i].paths.len() == 0 {
        return Err("El juego no tiene rutas configuradas".to_owned());
    }
    let first = trim_chars(&chars_of(cfg.games[i].paths[0].as_str()));
    let first_s = string_from_chars(&first);
    match expand_path(first_s.as_str(), env, home) {
        Some(p) => Ok(p),
        None => Err("No se pudo expandir la ruta".to_owned()),
    }
}

/// The merged path list keeps the existing paths as a prefix and appends
/// only paths from the import that were not already present.
pub proof fn lemma_merged_paths_props(a: Seq<Seq<char>>, b: Seq<Seq<char>>)
    ensures
        a.is_prefix_of(merged_paths(a, b)),
        forall|k: int|
            a.len() <= k < merged_paths(a, b).len() ==> b.contains(
                #[trigger] merged_paths(a, b)[k],
            ) && !a.contains(merged_paths(a, b)[k]),
    decreases b.len(),
{
    if b.len() > 0 {
        let a2 = if a.contains(b[0]) {
            a
        } else {
            a.push(b[0])
        };
        lemma_merged_paths_props(a2, b.drop_first());
        let m = merged_paths(a, b);
        assert(a.is_prefix_of(m)) by {
            assert(a2.is_prefix_of(m));
            assert(a.is_prefix_of(a2)) by {
                assert(a2.take(a.len() as int) =~= a);
            }
            assert(m.take(a2.len() as int).take(a.len() as int) =~= m.take(a.len() as int));
        }
        assert forall|k: int| a.len() <= k < m.len() implies b.contains(#[trigger] m[k])
            && !a.contains(m[k]) by {
            if k < a2.len() {
                assert(a2[k] == b[0]);
                assert(a2.is_prefix_of(m));
                assert(m.take(a2.len() as int)[k] == m[k]);
                assert(m[k] == b[0]);
                assert(b[0] == b[0] && 0 < b.len());
                assert(b.contains(m[k])) by {
                    assert(b[0] == m[k]);
                }
            } else {
                assert(b.drop_first().contains(m[k]) && !a2.contains(m[k]));
                let j = choose|j: int|
                    0 <= j < b.drop_first().len() && b.drop_first()[j] == m[k];
                assert(b[j + 1] == m[k]);
                if a.contains(m[k]) {
                    let x = choose|x: int| 0 <= x < a.len() && a[x] == m[k];
                    assert(a2[x] == m[k]);
                }
            }
        }
    }
}

} // verus!
