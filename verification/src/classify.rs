//! Save-folder classifier: decides from the file names found directly in a
//! directory (and one level inside its non-hidden subdirectories) whether the
//! directory looks like game save data, and which folder names are excluded
//! from scanning altogether.

use vstd::prelude::*;

use crate::text::{
    chars_of, contains_chars, contains_seq, ends_with_chars, ends_with_spec, eq_chars, lower,
    lower_chars, trim_chars, trim_spec,
};

verus! {

/// A lower-cased name matches extension `ext` when it ends with it or when
/// the extension is followed by a further dot somewhere inside the name
/// (as in a `save.sav.bak` backup).
pub open spec fn ext_matches(lname: Seq<char>, ext: Seq<char>) -> bool {
    ends_with_spec(lname, ext) || contains_seq(lname, ext.push('.'))
}

/// The file name carries a strong save extension.
pub open spec fn is_strong_name(name: Seq<char>) -> bool {
    let l = lower(name);
    ext_matches(l, ".sav"@) || ext_matches(l, ".savx"@) || ext_matches(l, ".save"@)
        || ext_matches(l, ".sl2"@) || ext_matches(l, ".state"@) || ext_matches(l, ".sr"@)
}

/// The file name ends with a weak, generic data extension.
pub open spec fn is_weak_name(name: Seq<char>) -> bool {
    let l = lower(name);
    ends_with_spec(l, ".dat"@) || ends_with_spec(l, ".bin"@) || ends_with_spec(l, ".bak"@)
}

/// The file name contains a save-related hint substring.
pub open spec fn name_hints_save_spec(name: Seq<char>) -> bool {
    let l = lower(name);
    contains_seq(l, "save"@) || contains_seq(l, "slot"@) || contains_seq(l, "profile"@)
        || contains_seq(l, "progress"@) || contains_seq(l, "checkpoint"@) || contains_seq(
        l,
        "autosave"@,
    ) || contains_seq(l, "quicksave"@) || contains_seq(l, "player"@) || contains_seq(l, "game"@)
}

/// A name that classifies its directory on its own: a strong extension, or a
/// weak extension together with a save hint.
pub open spec fn strong_or_hinted(name: Seq<char>) -> bool {
    is_strong_name(name) || (is_weak_name(name) && name_hints_save_spec(name))
}

/// A weak-extension name without any save hint; these only count towards the
/// bulk threshold.
pub open spec fn weak_unhinted(name: Seq<char>) -> bool {
    is_weak_name(name) && !name_hints_save_spec(name)
}

/// Number of weak, unhinted names in the list.
pub open spec fn count_weak(names: Seq<Seq<char>>) -> int
    decreases names.len(),
{
    if names.len() == 0 {
        0
    } else {
        count_weak(names.drop_last()) + if weak_unhinted(names.last()) {
            1int
        } else {
            0int
        }
    }
}

/// Minimum number of weak matches that classifies a directory on bulk alone.
pub const WEAK_MATCH_THRESHOLD: usize = 3;

/// The classifier's verdict over a list of file names: save-like when some
/// name is strong or hinted, or when at least three weak names occur.
pub open spec fn names_save_like(names: Seq<Seq<char>>) -> bool {
    (exists|i: int| 0 <= i < names.len() && strong_or_hinted(names[i])) || count_weak(names)
        >= WEAK_MATCH_THRESHOLD
}

/// Matches `lname` (already lower-cased) against one extension.
fn ext_match_exec(lname: &Vec<char>, ext: &str) -> (r: bool)
    ensures
        r == ext_matches(lname@, ext@),
{
    let e = chars_of(ext);
    if ends_with_chars(lname, &e) {
        return true;
    }
    let mut dotted = e;
    dotted.push('.');
    contains_chars(lname, &dotted)
}

/// True when the file name carries a strong save extension, directly or
/// followed by a further extension.
pub fn is_strong_save_file(name: &str) -> (r: bool)
    ensures
        r == is_strong_name(name@),
{
    let l = lower_chars(&chars_of(name));
    ext_match_exec(&l, ".sav") || ext_match_exec(&l, ".savx") || ext_match_exec(&l, ".save")
        || ext_match_exec(&l, ".sl2") || ext_match_exec(&l, ".state") || ext_match_exec(&l, ".sr")
}

/// True when the file name ends with a weak data extension.
pub fn is_weak_save_file(name: &str) -> (r: bool)
    ensures
        r == is_weak_name(name@),
{
    let l = lower_chars(&chars_of(name));
    ends_with_chars(&l, &chars_of(".dat")) || ends_with_chars(&l, &chars_of(".bin"))
        || ends_with_chars(&l, &chars_of(".bak"))
}

/// True when the file name contains a save-related hint substring.
pub fn name_hints_save(name: &str) -> (r: bool)
    ensures
        r == name_hints_save_spec(name@),
{
    let l = lower_chars(&chars_of(name));
    contains_chars(&l, &chars_of("save")) || contains_chars(&l, &chars_of("slot"))
        || contains_chars(&l, &chars_of("profile")) || contains_chars(&l, &chars_of("progress"))
        || contains_chars(&l, &chars_of("checkpoint")) || contains_chars(&l, &chars_of("autosave"))
        || contains_chars(&l, &chars_of("quicksave")) || contains_chars(&l, &chars_of("player"))
        || contains_chars(&l, &chars_of("game"))
}

/// Classifier verdict over the file names collected for one directory.
#[verifier::rlimit(50)]
pub fn folder_contains_save_like_files(files: &Vec<String>) -> (r: bool)
    ensures
        r == names_save_like(files.deep_view()),
{
    let ghost names = files.deep_view();
    let mut weak_count: usize = 0;
    let mut i: usize = 0;
    while i < files.len()
        invariant
            i <= files@.len(),
            names == files.deep_view(),
            names.len() == files@.len(),
            forall|j: int| 0 <= j < names.len() ==> names[j] == files@[j]@,
            forall|j: int| 0 <= j < i ==> !strong_or_hinted(names[j]),
            weak_count == count_weak(names.take(i as int)),
            weak_count <= i,
        decreases files@.len() - i,
    {
        let name: &String = &files[i];
        if is_strong_save_file(name.as_str()) {
            assert(strong_or_hinted(names[i as int]));
            return true;
        }
        if is_weak_save_file(name.as_str()) {
            if name_hints_save(name.as_str()) {
                assert(strong_or_hinted(names[i as int]));
                return true;
            }
            weak_count += 1;
        }
        proof {
            assert(names.take(i + 1).drop_last() =~= names.take(i as int));
            assert(names.take(i + 1).last() == names[i as int]);
        }
        i += 1;
    }
    proof {
        assert(names.take(names.len() as int) =~= names);
    }
    weak_count >= WEAK_MATCH_THRESHOLD
}

/// Any single strong-extension file classifies its directory as save-like,
/// whatever else the directory holds.
pub proof fn lemma_strong_file_classifies(names: Seq<Seq<char>>, i: int)
    requires
        0 <= i < names.len(),
        is_strong_name(names[i]),
    ensures
        names_save_like(names),
{
}

/// Without strong or hinted names, the verdict is decided by the bulk
/// threshold alone: fewer than three weak files leave the directory
/// unclassified, three or more classify it.
pub proof fn lemma_weak_threshold(names: Seq<Seq<char>>)
    requires
        forall|i: int| 0 <= i < names.len() ==> !strong_or_hinted(names[i]),
    ensures
        names_save_like(names) == (count_weak(names) >= WEAK_MATCH_THRESHOLD),
{
}

/// Excluded folder names: exact matches after lower-casing and trimming.
pub open spec fn excluded_exact(l: Seq<char>) -> bool {
    l == "windows"@ || l == "users"@ || l == "program files"@ || l == "program files (x86)"@
        || l == "programdata"@ || l == "recovery"@ || l == "perflogs"@ || l == "$recycle.bin"@
        || l == "system volume information"@ || l == "msocache"@ || l == "boot"@ || l == "intel"@
        || l == "amd"@ || l == "code"@ || l == "cursor"@ || l == "visual studio setup"@
        || l == "git extensions"@ || l == "gitextensions"@ || l == "github-copilot"@
        || l == "cmaketools"@ || l == "visualstudiodiscordrpc"@ || l == "jetbrains"@
        || l == "discord"@ || l == "spotify"@ || l == "zoom"@ || l == "slack"@
        || l == "telegram desktop"@ || l == "whatsapp"@ || l == "google"@ || l == "microsoft"@
        || l == "nvidia corporation"@ || l == "connecteddevicesplatform"@ || l == "mozilla"@
        || l == "chrome"@ || l == "firefox"@ || l == "edge"@ || l == "opera"@ || l == "brave"@
        || l == "npm"@ || l == "pnpm"@ || l == "pnpm-state"@ || l == "node_modules"@
        || l == "packages"@ || l == "amplify"@ || l == "turborepo"@ || l == "nextjs-nodejs"@
        || l == "theme-liquid-docs-nodejs"@ || l == ".bun"@ || l == ".npm"@ || l == ".cache"@
        || l == ".local"@ || l == ".config"@ || l == "obs-studio"@ || l == "qbittorrent"@
        || l == "utorrent web"@ || l == "winrar"@ || l == "7-zip"@ || l == "process hacker 2"@
        || l == "xdg.config"@ || l == "ccleaner"@ || l == "steam"@ || l == "steamlibrary"@
        || l == "sklauncher"@ || l == "riot-client-ux"@ || l == "riot games"@
        || l == "firestorm launcher"@ || l == "launcher-updater"@ || l == "overwolf"@
        || l == "overframe-ow-app-updater"@ || l == "overframe"@ || l == "wago-app"@
        || l == "wago-app-updater"@ || l == "battleye"@ || l == "epic games"@ || l == "ea games"@
        || l == "ubisoft"@ || l == "gog galaxy"@ || l == "battle.net"@ || l == "roblox"@
        || l == "robloxpcgdk"@ || l == "temp"@ || l == "tmp"@ || l == "crashdumps"@
        || l == "squirreltemp"@ || l == "programs"@ || l == "logs"@ || l == "cache"@
        || l == "sync-games"@
}

/// Excluded folder names: substrings associated with installers,
/// redistributables, servers and backups.
pub open spec fn excluded_partial(l: Seq<char>) -> bool {
    contains_seq(l, "server_pack"@) || contains_seq(l, "server pack"@) || contains_seq(
        l,
        "_server"@,
    ) || contains_seq(l, "backup"@) || contains_seq(l, "driver"@) || contains_seq(l, "installer"@)
        || contains_seq(l, "setup"@) || contains_seq(l, "redistributable"@) || contains_seq(
        l,
        "redist"@,
    ) || contains_seq(l, "runtime"@) || contains_seq(l, "sdk"@) || contains_seq(l, "dotnet"@)
        || contains_seq(l, ".net"@) || contains_seq(l, "visual c++"@) || contains_seq(
        l,
        "vcredist"@,
    ) || contains_seq(l, "directx"@)
}

/// A folder name is excluded when, lower-cased and trimmed, it equals a
/// known system or tooling folder name or contains an installer-like
/// substring.
pub open spec fn is_excluded_name(name: Seq<char>) -> bool {
    let l = trim_spec(lower(name));
    excluded_exact(l) || excluded_partial(l)
}

/// Compares `l` against one exact excluded name.
fn eq_lit(l: &Vec<char>, lit: &str) -> (r: bool)
    ensures
        r == (l@ == lit@),
{
    eq_chars(l, &chars_of(lit))
}

/// Tests `l` for one excluded substring.
fn has_lit(l: &Vec<char>, lit: &str) -> (r: bool)
    ensures
        r == contains_seq(l@, lit@),
{
    contains_chars(l, &chars_of(lit))
}

/// True when the folder name is excluded from classification and scanning.
pub fn is_excluded_folder(name: &str) -> (r: bool)
    ensures
        r == is_excluded_name(name@),
{
    let l = trim_chars(&lower_chars(&chars_of(name)));
    if eq_lit(&l, "windows") || eq_lit(&l, "users") || eq_lit(&l, "program files") || eq_lit(
        &l,
        "program files (x86)",
    ) || eq_lit(&l, "programdata") || eq_lit(&l, "recovery") || eq_lit(&l, "perflogs") || eq_lit(
        &l,
        "$recycle.bin",
    ) || eq_lit(&l, "system volume information") || eq_lit(&l, "msocache") || eq_lit(&l, "boot")
        || eq_lit(&l, "intel") || eq_lit(&l, "amd") || eq_lit(&l, "code") || eq_lit(&l, "cursor")
        || eq_lit(&l, "visual studio setup") || eq_lit(&l, "git extensions") || eq_lit(
        &l,
        "gitextensions",
    ) || eq_lit(&l, "github-copilot") || eq_lit(&l, "cmaketools") || eq_lit(
        &l,
        "visualstudiodiscordrpc",
    ) || eq_lit(&l, "jetbrains") || eq_lit(&l, "discord") || eq_lit(&l, "spotify") || eq_lit(
        &l,
        "zoom",
    ) || eq_lit(&l, "slack") || eq_lit(&l, "telegram desktop") || eq_lit(&l, "whatsapp") || eq_lit(
        &l,
        "google",
    ) || eq_lit(&l, "microsoft") || eq_lit(&l, "nvidia corporation") || eq_lit(
        &l,
        "connecteddevicesplatform",
    ) || eq_lit(&l, "mozilla") || eq_lit(&l, "chrome") || eq_lit(&l, "firefox") || eq_lit(
        &l,
        "edge",
    ) || eq_lit(&l, "opera") || eq_lit(&l, "brave") || eq_lit(&l, "npm") || eq_lit(&l, "pnpm")
        || eq_lit(&l, "pnpm-state") || eq_lit(&l, "node_modules") || eq_lit(&l, "packages")
        || eq_lit(&l, "amplify") || eq_lit(&l, "turborepo") || eq_lit(&l, "nextjs-nodejs")
        || eq_lit(&l, "theme-liquid-docs-nodejs") || eq_lit(&l, ".bun") || eq_lit(&l, ".npm")
        || eq_lit(&l, ".cache") || eq_lit(&l, ".local") || eq_lit(&l, ".config") || eq_lit(
        &l,
        "obs-studio",
    ) || eq_lit(&l, "qbittorrent") || eq_lit(&l, "utorrent web") || eq_lit(&l, "winrar") || eq_lit(
        &l,
        "7-zip",
    ) || eq_lit(&l, "process hacker 2") || eq_lit(&l, "xdg.config") || eq_lit(&l, "ccleaner")
        || eq_lit(&l, "steam") || eq_lit(&l, "steamlibrary") || eq_lit(&l, "sklauncher") || eq_lit(
        &l,
        "riot-client-ux",
    ) || eq_lit(&l, "riot games") || eq_lit(&l, "firestorm launcher") || eq_lit(
        &l,
        "launcher-updater",
    ) || eq_lit(&l, "overwolf") || eq_lit(&l, "overframe-ow-app-updater") || eq_lit(
        &l,
        "overframe",
    ) || eq_lit(&l, "wago-app") || eq_lit(&l, "wago-app-updater") || eq_lit(&l, "battleye")
        || eq_lit(&l, "epic games") || eq_lit(&l, "ea games") || eq_lit(&l, "ubisoft") || eq_lit(
        &l,
        "gog galaxy",
    ) || eq_lit(&l, "battle.net") || eq_lit(&l, "roblox") || eq_lit(&l, "robloxpcgdk") || eq_lit(
        &l,
        "temp",
    ) || eq_lit(&l, "tmp") || eq_lit(&l, "crashdumps") || eq_lit(&l, "squirreltemp") || eq_lit(
        &l,
        "programs",
    ) || eq_lit(&l, "logs") || eq_lit(&l, "cache") || eq_lit(&l, "sync-games") {
        return true;
    }
    has_lit(&l, "server_pack") || has_lit(&l, "server pack") || has_lit(&l, "_server") || has_lit(
        &l,
        "backup",
    ) || has_lit(&l, "driver") || has_lit(&l, "installer") || has_lit(&l, "setup") || has_lit(
        &l,
        "redistributable",
    ) || has_lit(&l, "redist") || has_lit(&l, "runtime") || has_lit(&l, "sdk") || has_lit(
        &l,
        "dotnet",
    ) || has_lit(&l, ".net") || has_lit(&l, "visual c++") || has_lit(&l, "vcredist") || has_lit(
        &l,
        "directx",
    )
}

} // verus!
