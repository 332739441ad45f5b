//! A snapshot of a directory subtree, as the surrounding application reads
//! it off the filesystem: each node carries its absolute path, its name, the
//! names of the files directly inside it, and its subdirectories. The
//! scanner and classifier work on these plain values, so their results are
//! functions of the snapshot alone.

use vstd::prelude::*;

use crate::classify::{folder_contains_save_like_files, names_save_like};
use crate::text::{chars_of, eq_chars, push_name};

verus! {

/// One directory of a filesystem snapshot.
pub struct DirTree {
    /// Absolute path of the directory, as the walker spelled it.
    pub path: String,
    /// Name of the directory (the last path component).
    pub name: String,
    /// Names of the files directly inside.
    pub files: Vec<String>,
    /// Subdirectories directly inside.
    pub subdirs: Vec<DirTree>,
}

/// A name the walkers treat as hidden: it starts with a dot.
pub open spec fn is_hidden(name: Seq<char>) -> bool {
    name.len() > 0 && name[0] == '.'
}

/// True when the directory name is hidden.
pub fn is_hidden_name(name: &str) -> (r: bool)
    ensures
        r == is_hidden(name@),
{
    let v = chars_of(name);
    v.len() > 0 && v[0] == '.'
}

/// File names contributed by the subdirectories in `ds`, one level deep:
/// each non-hidden subdirectory contributes the files directly inside it.
pub open spec fn sub_files(ds: Seq<DirTree>) -> Seq<Seq<char>>
    decreases ds.len(),
{
    if ds.len() == 0 {
        Seq::empty()
    } else {
        sub_files(ds.drop_last()) + if is_hidden(ds.last().name@) {
            Seq::<Seq<char>>::empty()
        } else {
            ds.last().files.deep_view()
        }
    }
}

/// The file names the classifier sees for a directory: its own files, plus
/// the files one level inside its non-hidden subdirectories.
pub open spec fn collected_files(t: DirTree) -> Seq<Seq<char>> {
    t.files.deep_view() + sub_files(t.subdirs@)
}

/// The classifier's verdict for a directory snapshot.
pub open spec fn tree_save_like(t: DirTree) -> bool {
    names_save_like(collected_files(t))
}

/// Collects the file names the classifier considers for `t`.
pub fn collect_files(t: &DirTree) -> (r: Vec<String>)
    ensures
        r.deep_view() == collected_files(*t),
{
    let mut r: Vec<String> = Vec::new();
    let mut i: usize = 0;
    while i < t.files.len()
        invariant
            i <= t.files@.len(),
            r.deep_view() == t.files.deep_view().take(i as int),
        decreases t.files@.len() - i,
    {
        push_name(&mut r, &t.files[i]);
        assert(t.files.deep_view().take(i as int + 1) =~= t.files.deep_view().take(
            i as int,
        ).push(t.files.deep_view()[i as int]));
        i += 1;
    }
    assert(t.files.deep_view().take(t.files@.len() as int) =~= t.files.deep_view());
    let ghost subs = t.subdirs@;
    let mut d: usize = 0;
    while d < t.subdirs.len()
        invariant
            d <= subs.len(),
            subs == t.subdirs@,
            r.deep_view() == t.files.deep_view() + sub_files(subs.take(d as int)),
        decreases subs.len() - d,
    {
        let sub: &DirTree = &t.subdirs[d];
        proof {
            assert(subs.take(d as int + 1).drop_last() =~= subs.take(d as int));
            assert(subs.take(d as int + 1).last() == subs[d as int]);
        }
        if !is_hidden_name(sub.name.as_str()) {
            let mut j: usize = 0;
            while j < sub.files.len()
                invariant
                    j <= sub.files@.len(),
                    subs == t.subdirs@,
                    0 <= d < subs.len(),
                    sub == subs[d as int],
                    r.deep_view() == t.files.deep_view() + sub_files(subs.take(d as int))
                        + sub.files.deep_view().take(j as int),
                decreases sub.files@.len() - j,
            {
                push_name(&mut r, &sub.files[j]);
                assert(sub.files.deep_view().take(j as int + 1) =~= sub.files.deep_view().take(
                    j as int,
                ).push(sub.files.deep_view()[j as int]));
                assert(r.deep_view() =~= t.files.deep_view() + sub_files(subs.take(d as int))
                    + sub.files.deep_view().take(j as int + 1));
                j += 1;
            }
            assert(sub.files.deep_view().take(sub.files@.len() as int) =~= sub.files.deep_view());
            assert(r.deep_view() =~= t.files.deep_view() + sub_files(subs.take(d as int + 1)));
        } else {
            assert(r.deep_view() =~= t.files.deep_view() + sub_files(subs.take(d as int + 1)));
        }
        d += 1;
    }
    assert(subs.take(subs.len() as int) =~= subs);
    r
}

/// Classifier verdict for a directory snapshot: save-like from its own
/// files and the files one level inside its non-hidden subdirectories.
pub fn dir_save_like(t: &DirTree) -> (r: bool)
    ensures
        r == tree_save_like(*t),
{
    let files = collect_files(t);
    folder_contains_save_like_files(&files)
}

/// Subdirectory names skipped by the deep save search: emulator settings
/// folders.
pub open spec fn skip_settings(name: Seq<char>) -> bool {
    name == "steam_settings"@ || name == "settings"@
}

/// The deep save search: the directory, or one of its not-skipped
/// descendants within the depth cap, is save-like.
pub open spec fn contains_saves_spec(t: DirTree, depth: int) -> bool
    decreases 6 - depth,
{
    if depth > 5 {
        false
    } else {
        tree_save_like(t) || exists|i: int|
            0 <= i < t.subdirs@.len() && !skip_settings(t.subdirs@[i].name@)
                && contains_saves_spec(t.subdirs@[i], depth + 1)
    }
}

/// Searches the snapshot for save-like directories at any depth up to the
/// cap, skipping emulator settings folders.
pub fn contains_saves_at_any_depth(t: &DirTree, depth: usize) -> (r: bool)
    ensures
        r == contains_saves_spec(*t, depth as int),
    decreases 6 - depth as int,
{
    if depth > 5 {
        return false;
    }
    if dir_save_like(t) {
        return true;
    }
    let ghost subs = t.subdirs@;
    let mut i: usize = 0;
    while i < t.subdirs.len()
        invariant
            i <= subs.len(),
            subs == t.subdirs@,
            depth <= 5,
            forall|j: int|
                0 <= j < i ==> !(!skip_settings(subs[j].name@) && contains_saves_spec(
                    subs[j],
                    depth + 1,
                )),
        decreases subs.len() - i,
    {
        let sub: &DirTree = &t.subdirs[i];
        let name = chars_of(sub.name.as_str());
        let skipped = eq_chars(&name, &chars_of("steam_settings")) || eq_chars(
            &name,
            &chars_of("settings"),
        );
        if !skipped {
            if contains_saves_at_any_depth(sub, depth + 1) {
                return true;
            }
        }
        i += 1;
    }
    false
}

} // verus!
