//! Watch orchestration decisions: mapping changed paths back to their
//! owning games by longest watch-root prefix, and collapsing one debounced
//! event batch to the set of games to upload. The watcher thread and the
//! uploads themselves run in the surrounding application.

use vstd::prelude::*;

use crate::config::{blank, list_contains, Config};
use crate::manifest::is_path_prefix;
use crate::text::chars_of;

verus! {

/// The best watch root so far, scanning from `i`: a root that is a
/// component prefix of the path and strictly longer than the best one beats
/// it; the first of equals wins.
pub open spec fn best_root_from(
    roots: Seq<(Seq<char>, Seq<char>)>,
    path: Seq<char>,
    i: int,
    best: Option<int>,
) -> Option<int>
    decreases roots.len() - i,
{
    if i < 0 || i >= roots.len() {
        best
    } else {
        let better = is_path_prefix(roots[i].0, path) && (match best {
            Option::None => true,
            Option::Some(b) => roots[i].0.len() > roots[b].0.len(),
        });
        best_root_from(
            roots,
            path,
            i + 1,
            if better {
                Option::Some(i)
            } else {
                best
            },
        )
    }
}

/// The game owning a changed path: the game of the longest watch root the
/// path lies under, if any.
pub open spec fn game_of_path(roots: Seq<(Seq<char>, Seq<char>)>, path: Seq<char>) -> Option<
    Seq<char>,
> {
    match best_root_from(roots, path, 0, Option::None) {
        Option::Some(i) => Option::Some(roots[i].1),
        Option::None => Option::None,
    }
}

/// Maps a changed path to its owning game by longest watch-root prefix;
/// paths outside every root map to nothing.
pub fn path_to_game_id(path: &str, watch_roots: &Vec<(String, String)>) -> (r: Option<String>)
    ensures
        match r {
            Some(id) => game_of_path(watch_roots.deep_view(), path@) == Option::Some(id@),
            None => game_of_path(watch_roots.deep_view(), path@) is None,
        },
{
    let ghost rv = watch_roots.deep_view();
    let mut best: Option<usize> = None;
    let mut best_len: usize = 0;
    let mut i: usize = 0;
    while i < watch_roots.len()
        invariant
            i <= watch_roots@.len(),
            rv == watch_roots.deep_view(),
            rv.len() == watch_roots@.len(),
            best_root_from(rv, path@, 0, Option::None) == best_root_from(
                rv,
                path@,
                i as int,
                match best {
                    Some(b) => Option::Some(b as int),
                    None => Option::None,
                },
            ),
            match best {
                Some(b) => b < i && best_len == rv[b as int].0.len(),
                None => true,
            },
        decreases watch_roots@.len() - i,
    {
        let root: &String = &watch_roots[i].0;
        proof {
            assert(rv[i as int] == (watch_roots@[i as int].0@, watch_roots@[i as int].1@));
        }
        let root_len = chars_of(root.as_str()).len();
        let is_pref = crate::manifest::path_is_prefix(root.as_str(), path);
        let better: bool = is_pref && (match best {
            Some(_) => root_len > best_len,
            None => true,
        });
        if better {
            best = Some(i);
            best_len = root_len;
        }
        i += 1;
    }
    match best {
        Some(b) => {
            proof {
                assert(best_root_from(rv, path@, 0, Option::None) == Option::Some(b as int));
            }
            Some(watch_roots[b].1.clone())
        },
        None => None,
    }
}

/// The games one debounced batch triggers: each changed path's owning game,
/// deduplicated, keeping the order of first appearance.
pub open spec fn games_to_sync_spec(
    paths: Seq<Seq<char>>,
    roots: Seq<(Seq<char>, Seq<char>)>,
) -> Seq<Seq<char>>
    decreases paths.len(),
{
    if paths.len() == 0 {
        Seq::empty()
    } else {
        let p = games_to_sync_spec(paths.drop_last(), roots);
        match game_of_path(roots, paths.last()) {
            Option::Some(id) => if p.contains(id) {
                p
            } else {
                p.push(id)
            },
            Option::None => p,
        }
    }
}

/// Collapses a batch of changed paths to the distinct games to upload, in
/// order of first change; paths outside all watch roots are ignored.
pub fn games_for_changed_paths(paths: &Vec<String>, watch_roots: &Vec<(String, String)>) -> (r:
    Vec<String>)
    ensures
        r.deep_view() == games_to_sync_spec(paths.deep_view(), watch_roots.deep_view()),
{
    let ghost pv = paths.deep_view();
    let ghost rv = watch_roots.deep_view();
    let mut out: Vec<String> = Vec::new();
    let mut i: usize = 0;
    proof {
        assert(out.deep_view() =~= Seq::<Seq<char>>::empty());
    }
    while i < paths.len()
        invariant
            i <= paths@.len(),
            pv == paths.deep_view(),
            rv == watch_roots.deep_view(),
            pv.len() == paths@.len(),
            out.deep_view() == games_to_sync_spec(pv.take(i as int), rv),
        decreases paths@.len() - i,
    {
        proof {
            assert(pv.take(i as int + 1).drop_last() =~= pv.take(i as int));
            assert(pv.take(i as int + 1).last() == pv[i as int]);
        }
        match path_to_game_id(paths[i].as_str(), watch_roots) {
            Some(id) => {
                let idv = chars_of(id.as_str());
                if !list_contains(&out, &idv) {
                    crate::text::push_name(&mut out, &id);
                }
            },
            None => {},
        }
        i += 1;
    }
    proof {
        assert(pv.take(pv.len() as int) =~= pv);
    }
    out
}

/// The watcher runs only with a configured base URL and user identifier;
/// otherwise automatic uploads could never succeed.
pub fn watcher_enabled(cfg: &Config) -> (r: bool)
    ensures
        r == (!blank(cfg.api_base_url) && !blank(cfg.user_id)),
{
    !crate::config::is_blank(&cfg.api_base_url) && !crate::config::is_blank(&cfg.user_id)
}

} // verus!
