//! SaveGuard: deciding which folder holds a game's saves.
//!
//! A changed file is attributed to a *save root*: the folder below one of the
//! watched locations that the backups will cover. Cache and temp folders are
//! never roots, and when the game's name is known the root is the deepest of
//! the first few folders that names the game, so publisher folders are not
//! swept up whole.
use vstd::prelude::*;
use std::collections::HashSet;
use sysinfo::System;
use crate::text::{
    alphanumeric, char_lower, char_lowercase, chars_contain, components_of, contains_seq,
    is_alphanumeric, lowercase, path_components, path_push, push_path, str_chars, str_eq,
    str_lowercase, string_from_chars, strs_view,
};

verus! {

/// Folder names (already lowercase) that never hold saves.
pub open spec fn excluded_folder(n: Seq<char>) -> bool {
    ||| n == "d3dscache"@
    ||| n == "temp"@
    ||| n == "crashpad"@
    ||| n == "crash_reports"@
    ||| n == "crashdumps"@
    ||| n == "logs"@
    ||| n == "cache"@
    ||| n == "nvidia"@
    ||| n == "amd"@
    ||| n == "cef"@
    ||| n == "webcache"@
    ||| n == "gpuconfig"@
    ||| n == "shadercache"@
}

/// Whether a (lowercase) folder name is one that never holds saves.
pub fn is_save_root_excluded(folder_name: &str) -> (r: bool)
    ensures
        r == excluded_folder(folder_name@),
{
    str_eq(folder_name, "d3dscache") || str_eq(folder_name, "temp") || str_eq(folder_name, "crashpad")
        || str_eq(folder_name, "crash_reports") || str_eq(folder_name, "crashdumps") || str_eq(
        folder_name,
        "logs",
    ) || str_eq(folder_name, "cache") || str_eq(folder_name, "nvidia") || str_eq(folder_name, "amd")
        || str_eq(folder_name, "cef") || str_eq(folder_name, "webcache") || str_eq(
        folder_name,
        "gpuconfig",
    ) || str_eq(folder_name, "shadercache")
}

/// How deep below a watched location a folder may sit and still be taken as
/// the folder named after the game.
pub const MAX_NAME_DEPTH: usize = 3;

/// A name folded to its lowercase alphanumerics.
pub open spec fn fold_key(s: Seq<char>) -> Seq<char>
    decreases s.len(),
{
    if s.len() == 0 {
        seq![]
    } else {
        fold_key(s.drop_last()) + if alphanumeric(s.last()) {
            char_lower(s.last())
        } else {
            seq![]
        }
    }
}

/// Folds a name to lowercase alphanumerics, so that "Cyberpunk 2077",
/// "cyberpunk2077" and "Cyberpunk2077.exe" compare equal up to the extension.
pub fn normalize_key(input: &str) -> (r: String)
    ensures
        r@ == fold_key(input@),
{
    let cs = str_chars(input);
    let mut out: Vec<char> = Vec::new();
    let mut i: usize = 0;
    while i < cs.len()
        invariant
            cs@ == input@,
            i <= cs@.len(),
            out@ == fold_key(cs@.take(i as int)),
        decreases cs@.len() - i,
    {
        let c = cs[i];
        let ghost before = out@;
        assert(cs@.take(i + 1).drop_last() =~= cs@.take(i as int));
        if is_alphanumeric(c) {
            let low = char_lowercase(c);
            let mut k: usize = 0;
            while k < low.len()
                invariant
                    k <= low@.len(),
                    out@ == before + low@.take(k as int),
                decreases low@.len() - k,
            {
                out.push(low[k]);
                k = k + 1;
                assert(out@ =~= before + low@.take(k as int));
            }
            assert(low@.take(k as int) =~= low@);
        } else {
            assert(before + seq![] =~= before);
        }
        i = i + 1;
    }
    assert(cs@.take(i as int) =~= cs@);
    string_from_chars(&out)
}

/// Whether two folded keys name the same game: equal, or the shorter (in
/// characters, at least four) occurs inside the longer.
pub open spec fn keys_match(fk: Seq<char>, nk: Seq<char>) -> bool {
    if fk.len() == 0 || nk.len() == 0 {
        false
    } else if fk == nk {
        true
    } else if fk.len() <= nk.len() {
        fk.len() >= 4 && contains_seq(nk, fk)
    } else {
        nk.len() >= 4 && contains_seq(fk, nk)
    }
}

/// A sequence contained in one of the same length is that sequence.
proof fn lemma_contains_same_len(hay: Seq<char>, needle: Seq<char>)
    requires
        contains_seq(hay, needle),
        hay.len() == needle.len(),
    ensures
        hay == needle,
{
    let i = choose|i: int| 0 <= i <= hay.len() - needle.len() && #[trigger] hay.subrange(i, i + needle.len()) == needle;
    assert(i == 0);
    assert(hay.subrange(0, hay.len() as int) =~= hay);
}

proof fn lemma_keys_match_symmetric(x: Seq<char>, y: Seq<char>)
    ensures
        keys_match(x, y) == keys_match(y, x),
{
    if x.len() == y.len() && x != y {
        if contains_seq(y, x) {
            lemma_contains_same_len(y, x);
        }
        if contains_seq(x, y) {
            lemma_contains_same_len(x, y);
        }
    }
}

/// Whether a folder name plausibly names the game `key`.
pub open spec fn names_match(folder: Seq<char>, key: Seq<char>) -> bool {
    keys_match(fold_key(folder), fold_key(key))
}

/// Name matching does not depend on which name is the folder's and which
/// the game's.
pub proof fn lemma_name_match_symmetric(a: Seq<char>, b: Seq<char>)
    ensures
        names_match(a, b) == names_match(b, a),
{
    lemma_keys_match_symmetric(fold_key(a), fold_key(b));
}

/// A folder whose folded name holds the folded game name, four characters
/// or longer, names the game (so "The Witcher 3" names "Witcher 3"); so does
/// a folder whose folded name the folded game name holds. Different folded
/// names match in no other way: not when neither holds the other, and not
/// when the one held is shorter than four characters.
pub proof fn lemma_contained_name_matches(folder: Seq<char>, key: Seq<char>)
    ensures
        fold_key(key).len() >= 4 && contains_seq(fold_key(folder), fold_key(key)) ==> names_match(folder, key),
        fold_key(folder).len() >= 4 && contains_seq(fold_key(key), fold_key(folder)) ==> names_match(folder, key),
        fold_key(folder) != fold_key(key) && !contains_seq(fold_key(folder), fold_key(key)) && !contains_seq(
            fold_key(key),
            fold_key(folder),
        ) ==> !names_match(folder, key),
        fold_key(folder) != fold_key(key) && contains_seq(fold_key(folder), fold_key(key)) && fold_key(key).len()
            < 4 ==> !names_match(folder, key),
        fold_key(folder) != fold_key(key) && contains_seq(fold_key(key), fold_key(folder)) && fold_key(
            folder,
        ).len() < 4 ==> !names_match(folder, key),
        fold_key(folder).len() > 0 && fold_key(folder) == fold_key(key) ==> names_match(folder, key),
{
    let fk = fold_key(folder);
    let nk = fold_key(key);
    if fk != nk && contains_seq(fk, nk) && fk.len() <= nk.len() {
        lemma_contains_same_len(fk, nk);
    }
    if fk != nk && contains_seq(nk, fk) && nk.len() <= fk.len() {
        lemma_contains_same_len(nk, fk);
    }
    if nk.len() >= 4 && contains_seq(fk, nk) {
        if fk.len() == nk.len() {
            lemma_contains_same_len(fk, nk);
        }
    }
    if fk.len() >= 4 && contains_seq(nk, fk) {
        if fk.len() == nk.len() {
            lemma_contains_same_len(nk, fk);
        }
    }
}

/// True when a folder name plausibly names the game: the folded names are
/// equal, or the shorter one (at least four characters) appears inside the
/// longer.
pub fn name_matches(folder: &str, key: &str) -> (r: bool)
    ensures
        r == names_match(folder@, key@),
{
    let folder_key = normalize_key(folder);
    let name_key = normalize_key(key);
    if folder_key.as_str().is_empty() || name_key.as_str().is_empty() {
        return false;
    }
    let fk = str_chars(folder_key.as_str());
    let nk = str_chars(name_key.as_str());
    if crate::text::chars_eq(&fk, &nk) {
        return true;
    }
    let flen = fk.len();
    let nlen = nk.len();
    if flen <= nlen {
        flen >= 4 && chars_contain(&nk, &fk)
    } else {
        nlen >= 4 && chars_contain(&fk, &nk)
    }
}

/// Whether `name` plausibly names any of the games in `keys`.
pub open spec fn matches_any(name: Seq<char>, keys: Seq<Seq<char>>) -> bool {
    exists|j: int| 0 <= j < keys.len() && names_match(name, #[trigger] keys[j])
}

/// Whether the `k`-th component of `rel` is a candidate folder naming the game.
pub open spec fn names_game_at(rel: Seq<Seq<char>>, keys: Seq<Seq<char>>, k: int) -> bool {
    let name = lowercase(rel[k]);
    !excluded_folder(name) && matches_any(name, keys)
}

/// The deepest level (1-based) among the first `n` components that names the game.
pub open spec fn deepest_upto(rel: Seq<Seq<char>>, keys: Seq<Seq<char>>, n: nat) -> Option<nat>
    decreases n,
{
    if n == 0 {
        None
    } else if names_game_at(rel, keys, n - 1) {
        Some(n)
    } else {
        deepest_upto(rel, keys, (n - 1) as nat)
    }
}

/// The deepest level among the first [`MAX_NAME_DEPTH`] components that names the game.
pub open spec fn deepest_match(rel: Seq<Seq<char>>, keys: Seq<Seq<char>>) -> Option<nat> {
    deepest_upto(rel, keys, if rel.len() < MAX_NAME_DEPTH { rel.len() } else { MAX_NAME_DEPTH as nat })
}

fn matches_any_key(name: &str, keys: &[String]) -> (r: bool)
    ensures
        r == matches_any(name@, strs_view(keys@)),
{
    let mut j: usize = 0;
    while j < keys.len()
        invariant
            j <= keys@.len(),
            forall|m: int| 0 <= m < j ==> !names_match(name@, #[trigger] strs_view(keys@)[m]),
        decreases keys@.len() - j,
    {
        if name_matches(name, keys[j].as_str()) {
            assert(names_match(name@, strs_view(keys@)[j as int]));
            return true;
        }
        j = j + 1;
    }
    false
}

/// The deepest level (1-based) among the first [`MAX_NAME_DEPTH`] components
/// of `rel` that names the game. Excluded folders are never candidates but do
/// not stop a deeper match.
fn deepest_name_match(rel: &Vec<String>, name_keys: &[String]) -> (r: Option<usize>)
    ensures
        match deepest_match(strs_view(rel@), strs_view(name_keys@)) {
            Some(d) => r == Some(d as usize),
            None => r is None,
        },
{
    let limit = if rel.len() < MAX_NAME_DEPTH {
        rel.len()
    } else {
        MAX_NAME_DEPTH
    };
    let ghost rv = strs_view(rel@);
    let ghost kv = strs_view(name_keys@);
    let mut found: Option<usize> = None;
    let mut index: usize = 0;
    while index < limit
        invariant
            rv == strs_view(rel@),
            kv == strs_view(name_keys@),
            limit <= rel@.len(),
            limit <= MAX_NAME_DEPTH,
            index <= limit,
            match deepest_upto(rv, kv, index as nat) {
                Some(d) => found == Some(d as usize),
                None => found is None,
            },
        decreases limit - index,
    {
        let name = str_lowercase(rel[index].as_str());
        assert(rv[index as int] == rel@[index as int]@);
        if !is_save_root_excluded(name.as_str()) && matches_any_key(name.as_str(), name_keys) {
            found = Some(index + 1);
        }
        index = index + 1;
    }
    found
}

/// The components left after `bc` when `bc` is a leading part of `pc`.
pub open spec fn strip(pc: Seq<Seq<char>>, bc: Seq<Seq<char>>) -> Option<Seq<Seq<char>>> {
    if bc.len() <= pc.len() && pc.take(bc.len() as int) == bc {
        Some(pc.skip(bc.len() as int))
    } else {
        None
    }
}

/// `base` extended by each of `parts` in turn.
pub open spec fn push_all(base: Seq<char>, parts: Seq<Seq<char>>) -> Seq<char>
    decreases parts.len(),
{
    if parts.len() == 0 {
        base
    } else {
        path_push(push_all(base, parts.drop_last()), parts.last())
    }
}

pub(crate) fn strip_components(pc: &Vec<String>, bc: &Vec<String>) -> (r: Option<Vec<String>>)
    ensures
        match strip(strs_view(pc@), strs_view(bc@)) {
            Some(rest) => r matches Some(v) && strs_view(v@) == rest,
            None => r is None,
        },
{
    let ghost p = strs_view(pc@);
    let ghost b = strs_view(bc@);
    if bc.len() > pc.len() {
        return None;
    }
    let mut i: usize = 0;
    while i < bc.len()
        invariant
            p == strs_view(pc@),
            b == strs_view(bc@),
            bc@.len() <= pc@.len(),
            i <= bc@.len(),
            forall|k: int| 0 <= k < i ==> p[k] == b[k],
        decreases bc@.len() - i,
    {
        if !str_eq(pc[i].as_str(), bc[i].as_str()) {
            assert(p.take(b.len() as int)[i as int] != b[i as int]);
            return None;
        }
        i = i + 1;
    }
    assert(p.take(b.len() as int) =~= b);
    let mut rest: Vec<String> = Vec::new();
    let mut j: usize = bc.len();
    while j < pc.len()
        invariant
            p == strs_view(pc@),
            b.len() <= j <= p.len(),
            strs_view(rest@) == p.subrange(b.len() as int, j as int),
        decreases pc@.len() - j,
    {
        let item = pc[j].clone();
        let ghost before = rest@;
        rest.push(item);
        proof {
            assert(rest@ == before.push(item));
            assert(strs_view(before).len() == before.len());
            assert forall|k: int| 0 <= k < rest@.len() implies #[trigger] strs_view(rest@)[k]
                == p.subrange(b.len() as int, j + 1)[k] by {
                if k < before.len() {
                    assert(rest@[k] == before[k]);
                    assert(strs_view(before)[k] == p.subrange(b.len() as int, j as int)[k]);
                } else {
                    assert(rest@[k] == item);
                }
            }
        }
        j = j + 1;
        assert(strs_view(rest@) =~= p.subrange(b.len() as int, j as int));
    }
    assert(p.subrange(b.len() as int, j as int) =~= p.skip(b.len() as int));
    Some(rest)
}

/// `base` extended by the first `depth` components of `rel`.
fn push_components(base: &str, rel: &Vec<String>, depth: usize) -> (r: String)
    requires
        depth <= rel@.len(),
    ensures
        r@ == push_all(base@, strs_view(rel@).take(depth as int)),
{
    let ghost rv = strs_view(rel@);
    let mut root = String::new();
    root.append(base);
    let mut i: usize = 0;
    assert(rv.take(0).len() == 0);
    while i < depth
        invariant
            rv == strs_view(rel@),
            depth <= rel@.len(),
            i <= depth,
            root@ == push_all(base@, rv.take(i as int)),
        decreases depth - i,
    {
        root = push_path(root.as_str(), rel[i].as_str());
        assert(rv.take(i + 1).drop_last() =~= rv.take(i as int));
        i = i + 1;
    }
    root
}

/// The save root of a changed file: the first folder below the first watched
/// location that contains it; none when that folder is a cache/temp folder.
pub open spec fn save_root(p: Seq<char>, bases: Seq<Seq<char>>) -> Option<Seq<char>>
    decreases bases.len(),
{
    if bases.len() == 0 {
        None
    } else {
        match strip(path_components(p), path_components(bases[0])) {
            Some(rel) => if rel.len() > 0 {
                if excluded_folder(lowercase(rel[0])) {
                    None
                } else {
                    Some(path_push(bases[0], rel[0]))
                }
            } else {
                save_root(p, bases.drop_first())
            },
            None => save_root(p, bases.drop_first()),
        }
    }
}

/// The save root of a changed file: the first folder below the first watched
/// location that contains it, or nothing when that folder is a cache or temp
/// folder or the file lies outside every watched location.
pub fn get_save_root(path: &str, base_dirs: &[String]) -> (r: Option<String>)
    ensures
        match save_root(path@, strs_view(base_dirs@)) {
            Some(root) => r matches Some(s) && s@ == root,
            None => r is None,
        },
{
    let ghost bv = strs_view(base_dirs@);
    let pc = components_of(path);
    let mut i: usize = 0;
    assert(bv.skip(0) =~= bv);
    while i < base_dirs.len()
        invariant
            bv == strs_view(base_dirs@),
            strs_view(pc@) == path_components(path@),
            i <= base_dirs@.len(),
            save_root(path@, bv) == save_root(path@, bv.skip(i as int)),
        decreases base_dirs@.len() - i,
    {
        let ghost rest = bv.skip(i as int);
        assert(rest[0] == base_dirs@[i as int]@);
        assert(rest.drop_first() =~= bv.skip(i + 1));
        let base = base_dirs[i].as_str();
        let bc = components_of(base);
        match strip_components(&pc, &bc) {
            Some(rel) => {
                if rel.len() > 0 {
                    let first = str_lowercase(rel[0].as_str());
                    if is_save_root_excluded(first.as_str()) {
                        return None;
                    }
                    return Some(push_path(base, rel[0].as_str()));
                }
            },
            None => {},
        }
        i = i + 1;
    }
    None
}

/// Name-aware save root: below the first watched location whose first folder
/// is not a cache/temp folder, the deepest of the first few folders naming the
/// game, or else that first folder.
pub open spec fn save_root_for(p: Seq<char>, bases: Seq<Seq<char>>, keys: Seq<Seq<char>>) -> Option<
    Seq<char>,
>
    decreases bases.len(),
{
    if bases.len() == 0 {
        None
    } else {
        match strip(path_components(p), path_components(bases[0])) {
            Some(rel) => if rel.len() > 0 && !excluded_folder(lowercase(rel[0])) {
                let depth = match deepest_match(rel, keys) {
                    Some(d) => d,
                    None => 1,
                };
                Some(push_all(bases[0], rel.take(depth as int)))
            } else {
                save_root_for(p, bases.drop_first(), keys)
            },
            None => save_root_for(p, bases.drop_first(), keys),
        }
    }
}

proof fn lemma_deepest_upto_bound(rel: Seq<Seq<char>>, keys: Seq<Seq<char>>, n: nat)
    ensures
        deepest_upto(rel, keys, n) matches Some(d) ==> 1 <= d <= n,
    decreases n,
{
    if n > 0 {
        lemma_deepest_upto_bound(rel, keys, (n - 1) as nat);
    }
}

/// Name-aware [`get_save_root`]: when a folder on the path names the game, that
/// folder is the root; otherwise the first folder below the watched location.
pub fn get_save_root_for(path: &str, base_dirs: &[String], name_keys: &[String]) -> (r: Option<String>)
    ensures
        match save_root_for(path@, strs_view(base_dirs@), strs_view(name_keys@)) {
            Some(root) => r matches Some(s) && s@ == root,
            None => r is None,
        },
{
    let ghost bv = strs_view(base_dirs@);
    let ghost kv = strs_view(name_keys@);
    let pc = components_of(path);
    let mut i: usize = 0;
    assert(bv.skip(0) =~= bv);
    while i < base_dirs.len()
        invariant
            bv == strs_view(base_dirs@),
            kv == strs_view(name_keys@),
            strs_view(pc@) == path_components(path@),
            i <= base_dirs@.len(),
            save_root_for(path@, bv, kv) == save_root_for(path@, bv.skip(i as int), kv),
        decreases base_dirs@.len() - i,
    {
        let ghost rest = bv.skip(i as int);
        assert(rest[0] == base_dirs@[i as int]@);
        assert(rest.drop_first() =~= bv.skip(i + 1));
        let base = base_dirs[i].as_str();
        let bc = components_of(base);
        match strip_components(&pc, &bc) {
            Some(rel) => {
                if rel.len() > 0 {
                    let first = str_lowercase(rel[0].as_str());
                    if !is_save_root_excluded(first.as_str()) {
                        let depth = match deepest_name_match(&rel, name_keys) {
                            Some(d) => d,
                            None => 1,
                        };
                        proof {
                            let rl = strs_view(rel@).len();
                            lemma_deepest_upto_bound(strs_view(rel@), kv,
                                if rl < MAX_NAME_DEPTH { rl } else { MAX_NAME_DEPTH as nat });
                        }
                        return Some(push_components(base, &rel, depth));
                    }
                }
            },
            None => {},
        }
        i = i + 1;
    }
    None
}

/// The deepest folder naming the game on a changed file's path, below the
/// first watched location where one does.
pub open spec fn save_root_named(p: Seq<char>, bases: Seq<Seq<char>>, keys: Seq<Seq<char>>) -> Option<
    Seq<char>,
>
    decreases bases.len(),
{
    if keys.len() == 0 || bases.len() == 0 {
        None
    } else {
        match strip(path_components(p), path_components(bases[0])) {
            Some(rel) => match deepest_match(rel, keys) {
                Some(d) => Some(push_all(bases[0], rel.take(d as int))),
                None => save_root_named(p, bases.drop_first(), keys),
            },
            None => save_root_named(p, bases.drop_first(), keys),
        }
    }
}

/// The deepest folder on a changed file's path that names the game; nothing
/// unless a folder genuinely matches, so a write by anything else is never
/// claimed.
pub fn save_root_by_name(path: &str, base_dirs: &[String], name_keys: &[String]) -> (r: Option<String>)
    ensures
        match save_root_named(path@, strs_view(base_dirs@), strs_view(name_keys@)) {
            Some(root) => r matches Some(s) && s@ == root,
            None => r is None,
        },
{
    let ghost bv = strs_view(base_dirs@);
    let ghost kv = strs_view(name_keys@);
    if name_keys.len() == 0 {
        return None;
    }
    let pc = components_of(path);
    let mut i: usize = 0;
    assert(bv.skip(0) =~= bv);
    while i < base_dirs.len()
        invariant
            bv == strs_view(base_dirs@),
            kv == strs_view(name_keys@),
            kv.len() > 0,
            strs_view(pc@) == path_components(path@),
            i <= base_dirs@.len(),
            save_root_named(path@, bv, kv) == save_root_named(path@, bv.skip(i as int), kv),
        decreases base_dirs@.len() - i,
    {
        let ghost rest = bv.skip(i as int);
        assert(rest[0] == base_dirs@[i as int]@);
        assert(rest.drop_first() =~= bv.skip(i + 1));
        let base = base_dirs[i].as_str();
        let bc = components_of(base);
        match strip_components(&pc, &bc) {
            Some(rel) => {
                match deepest_name_match(&rel, name_keys) {
                    Some(depth) => {
                        proof {
                            let rl = strs_view(rel@).len();
                            lemma_deepest_upto_bound(strs_view(rel@), kv,
                                if rl < MAX_NAME_DEPTH { rl } else { MAX_NAME_DEPTH as nat });
                        }
                        return Some(push_components(base, &rel, depth));
                    },
                    None => {},
                }
            },
            None => {},
        }
        i = i + 1;
    }
    None
}

proof fn lemma_no_match_upto(rel: Seq<Seq<char>>, keys: Seq<Seq<char>>, n: nat)
    requires
        forall|c: Seq<char>| !matches_any(c, keys),
    ensures
        deepest_upto(rel, keys, n) is None,
    decreases n,
{
    if n > 0 {
        assert(!matches_any(lowercase(rel[n - 1]), keys));
        lemma_no_match_upto(rel, keys, (n - 1) as nat);
    }
}

/// The name-aware save root falls back to the historical one: when no folder
/// name names the game (in particular when no name is known), it is the
/// first folder below the watched location, wherever the historical rule
/// finds a root.
pub proof fn lemma_name_aware_falls_back(p: Seq<char>, bases: Seq<Seq<char>>, keys: Seq<Seq<char>>)
    requires
        forall|c: Seq<char>| !matches_any(c, keys),
    ensures
        save_root(p, bases) is Some ==> save_root_for(p, bases, keys) == save_root(p, bases),
    decreases bases.len(),
{
    if bases.len() > 0 {
        match strip(path_components(p), path_components(bases[0])) {
            Some(rel) => {
                if rel.len() > 0 && !excluded_folder(lowercase(rel[0])) {
                    let n = if rel.len() < MAX_NAME_DEPTH { rel.len() } else { MAX_NAME_DEPTH as nat };
                    lemma_no_match_upto(rel, keys, n);
                    assert(rel.take(1).drop_last() =~= Seq::<Seq<char>>::empty());
                    assert(rel.take(1).last() == rel[0]);
                    assert(push_all(bases[0], rel.take(1)) == path_push(push_all(bases[0], Seq::empty()), rel[0]));
                } else if rel.len() == 0 {
                    lemma_name_aware_falls_back(p, bases.drop_first(), keys);
                }
            },
            None => {
                lemma_name_aware_falls_back(p, bases.drop_first(), keys);
            },
        }
    }
}

/// Whether a folder met by the sweep (`name` lowercase, at `path`) may hold
/// the game's saves: not the install folder `exclude` or inside it, not a
/// cache or temp folder, and named after the game.
pub open spec fn sweep_match(name: Seq<char>, path: Seq<char>, exclude: Option<Seq<char>>, keys: Seq<Seq<char>>) -> bool {
    let inside = match exclude {
        Some(skip) => crate::library::same_path(path, skip) || crate::session::path_is_under(path, skip),
        None => false,
    };
    !inside && !excluded_folder(name) && matches_any(name, keys)
}

/// Whether a folder met by the sweep may hold the game's saves.
pub fn sweep_candidate(name: &str, path: &str, exclude: Option<&str>, name_keys: &[String]) -> (r: bool)
    ensures
        r == sweep_match(
            name@,
            path@,
            match exclude {
                Some(x) => Some(x@),
                None => None,
            },
            strs_view(name_keys@),
        ),
{
    let inside = match exclude {
        Some(skip) => crate::library::paths_equal(path, skip) || crate::session::path_starts_with(path, skip),
        None => false,
    };
    !inside && !is_save_root_excluded(name) && matches_any_key(name, name_keys)
}

/// The folder the sweep adopts among its candidates (in walk order, each
/// with whether a file in it was modified this session): the first touched
/// one, else the first one, else none.
pub fn sweep_choice(touched: &Vec<bool>) -> (r: Option<usize>)
    ensures
        match r {
            Some(i) => i < touched@.len() && ((touched@[i as int] && (forall|k: int| 0 <= k < i ==> !touched@[k]))
                || (i == 0 && (forall|k: int| 0 <= k < touched@.len() ==> !touched@[k]))),
            None => touched@.len() == 0,
        },
{
    let mut i: usize = 0;
    while i < touched.len()
        invariant
            i <= touched@.len(),
            forall|k: int| 0 <= k < i ==> !touched@[k],
        decreases touched@.len() - i,
    {
        if touched[i] {
            return Some(i);
        }
        i = i + 1;
    }
    if touched.len() > 0 {
        Some(0)
    } else {
        None
    }
}

#[verifier::external_type_specification]
#[verifier::external_body]
pub struct ExSystem(sysinfo::System);

/// The process table a `System` has loaded: each known process id mapped to
/// its parent's id, if it has one.
pub uninterp spec fn process_table(s: System) -> Map<u32, Option<u32>>;

/// `System::process` followed by `Process::parent`: `None` when `pid` is not
/// in the loaded table, else the parent id recorded for it. The contract says
/// exactly that, over the table's name.
#[verifier::external_body]
pub(crate) fn process_parent(system: &System, pid: u32) -> (r: Option<Option<u32>>)
    ensures
        r == (if process_table(*system).dom().contains(pid) {
            Some(process_table(*system)[pid])
        } else {
            None
        }),
{
    system.process(sysinfo::Pid::from_u32(pid)).map(|p| p.parent().map(|q| q.as_u32()))
}

/// `System::refresh_processes` for the single process `pid`, keeping dead
/// entries. What it loads for `pid` depends on the running machine; the
/// source reloads only processes in the list it is given and removes none
/// (dead ones are kept), so every other entry of the table stays as it was.
#[verifier::external_body]
fn refresh_pid(system: &mut System, pid: u32)
    ensures
        forall|q: u32|
            q != pid ==> (#[trigger] process_table(*final(system)).dom().contains(q)
                == process_table(*old(system)).dom().contains(q)),
        forall|q: u32|
            q != pid && process_table(*old(system)).dom().contains(q) ==> #[trigger] process_table(
                *final(system),
            )[q] == process_table(*old(system))[q],
{
    system.refresh_processes(sysinfo::ProcessesToUpdate::Some(&[sysinfo::Pid::from_u32(pid)]), false);
}

/// Climbing from `t`, an ancestor `a` is met within `n` parent steps.
pub open spec fn ancestor_within(table: Map<u32, Option<u32>>, t: u32, a: u32, n: nat) -> bool
    decreases n,
{
    n > 0 && table.dom().contains(t) && match table[t] {
        Some(p) => p == a || ancestor_within(table, p, a, (n - 1) as nat),
        None => false,
    }
}

/// `a` is an ancestor of `t` in `table`.
pub open spec fn has_ancestor(table: Map<u32, Option<u32>>, t: u32, a: u32) -> bool {
    exists|n: nat| ancestor_within(table, t, a, n)
}

/// Climbing from `t` stops within `n` steps: at a process the table does not
/// hold, one without a parent, or one whose parent is `a`.
pub open spec fn climb_ends_within(table: Map<u32, Option<u32>>, t: u32, a: u32, n: nat) -> bool
    decreases n,
{
    n > 0 && (!table.dom().contains(t) || match table[t] {
        Some(p) => p == a || climb_ends_within(table, p, a, (n - 1) as nat),
        None => true,
    })
}

proof fn lemma_has_ancestor_step(table: Map<u32, Option<u32>>, t: u32, p: u32, a: u32)
    requires
        table.dom().contains(t),
        table[t] == Some(p),
        p != a,
    ensures
        has_ancestor(table, t, a) == has_ancestor(table, p, a),
{
    if has_ancestor(table, t, a) {
        let n = choose|n: nat| ancestor_within(table, t, a, n);
        assert(ancestor_within(table, p, a, (n - 1) as nat));
    }
    if has_ancestor(table, p, a) {
        let n = choose|n: nat| ancestor_within(table, p, a, n);
        assert(ancestor_within(table, t, a, n + 1));
    }
}

/// Whether climbing the loaded table from `target_pid` towards `ancestor_pid`
/// ends within `limit` parent steps (at a process the table does not hold,
/// one without a parent, or one whose parent is `ancestor_pid`): the
/// condition [`is_descendant`] needs. A climb that visits no process twice
/// ends within one step more than the number of process ids.
pub fn climb_ends(system: &System, target_pid: u32, ancestor_pid: u32, limit: u64) -> (r: bool)
    ensures
        r == (target_pid == ancestor_pid || climb_ends_within(
            process_table(*system),
            target_pid,
            ancestor_pid,
            limit as nat,
        )),
{
    if target_pid == ancestor_pid {
        return true;
    }
    let ghost table = process_table(*system);
    let mut current_pid = target_pid;
    let mut left = limit;
    while left > 0
        invariant
            table == process_table(*system),
            climb_ends_within(table, target_pid, ancestor_pid, limit as nat) == climb_ends_within(
                table,
                current_pid,
                ancestor_pid,
                left as nat,
            ),
        decreases left,
    {
        match process_parent(system, current_pid) {
            Some(Some(parent_pid)) => {
                if parent_pid == ancestor_pid {
                    return true;
                }
                current_pid = parent_pid;
                left = left - 1;
            },
            _ => {
                return true;
            },
        }
    }
    false
}

/// True when `target_pid` is `ancestor_pid` or lies below it in the loaded
/// process table. The table must not hold a parent cycle on the way up from
/// `target_pid` (the climb would never end).
pub fn is_descendant(system: &System, target_pid: u32, ancestor_pid: u32) -> (r: bool)
    requires
        target_pid == ancestor_pid || exists|n: nat|
            climb_ends_within(process_table(*system), target_pid, ancestor_pid, n),
    ensures
        r == (target_pid == ancestor_pid || has_ancestor(process_table(*system), target_pid, ancestor_pid)),
{
    if target_pid == ancestor_pid {
        return true;
    }
    let ghost table = process_table(*system);
    let ghost mut fuel: nat = choose|n: nat| climb_ends_within(table, target_pid, ancestor_pid, n);
    let mut current_pid = target_pid;
    loop
        invariant
            table == process_table(*system),
            current_pid != ancestor_pid,
            target_pid != ancestor_pid,
            climb_ends_within(table, current_pid, ancestor_pid, fuel),
            has_ancestor(table, target_pid, ancestor_pid) == has_ancestor(table, current_pid, ancestor_pid),
        decreases fuel,
    {
        match process_parent(system, current_pid) {
            Some(Some(parent_pid)) => {
                if parent_pid == ancestor_pid {
                    assert(ancestor_within(table, current_pid, ancestor_pid, 1));
                    return true;
                }
                proof {
                    lemma_has_ancestor_step(table, current_pid, parent_pid, ancestor_pid);
                    fuel = (fuel - 1) as nat;
                }
                current_pid = parent_pid;
            },
            _ => {
                proof {
                    assert(!table.dom().contains(current_pid) || table[current_pid] is None);
                    if has_ancestor(table, current_pid, ancestor_pid) {
                        let n = choose|n: nat| ancestor_within(table, current_pid, ancestor_pid, n);
                        assert(ancestor_within(table, current_pid, ancestor_pid, n));
                    }
                }
                return false;
            },
        }
    }
}

/// Most parent steps the bounded climbs take.
pub const MAX_CHAIN_STEPS: usize = 64;

/// Climbing from `t` for at most `steps` parent steps, a parent in `known` is
/// met before the chain breaks or points back at itself.
pub open spec fn chain_reaches_within(
    table: Map<u32, Option<u32>>,
    known: Set<u32>,
    t: u32,
    steps: nat,
) -> bool
    decreases steps,
{
    steps > 0 && table.dom().contains(t) && match table[t] {
        Some(p) => known.contains(p) || (p != t && chain_reaches_within(table, known, p, (steps - 1) as nat)),
        None => false,
    }
}

/// True when `target_pid` is in `known` or one of its ancestors (climbing at
/// most [`MAX_CHAIN_STEPS`] steps in the loaded table) is.
pub fn pid_chain_reaches(system: &System, target_pid: u32, known: &HashSet<u32>) -> (r: bool)
    ensures
        r == (known@.contains(target_pid) || chain_reaches_within(
            process_table(*system),
            known@,
            target_pid,
            MAX_CHAIN_STEPS as nat,
        )),
{
    broadcast use vstd::std_specs::hash::group_hash_axioms;
    if known.contains(&target_pid) {
        return true;
    }
    let ghost table = process_table(*system);
    let mut current_pid = target_pid;
    let mut step: usize = 0;
    while step < MAX_CHAIN_STEPS
        invariant
            table == process_table(*system),
            !known@.contains(target_pid),
            step <= MAX_CHAIN_STEPS,
            chain_reaches_within(table, known@, target_pid, MAX_CHAIN_STEPS as nat)
                == chain_reaches_within(table, known@, current_pid, (MAX_CHAIN_STEPS - step) as nat),
        decreases MAX_CHAIN_STEPS - step,
    {
        let ghost left = (MAX_CHAIN_STEPS - step) as nat;
        match process_parent(system, current_pid) {
            Some(Some(parent_pid)) => {
                assert(table[current_pid] == Some(parent_pid));
                if known.contains(&parent_pid) {
                    return true;
                }
                assert(!known@.contains(parent_pid));
                if parent_pid == current_pid {
                    assert(!chain_reaches_within(table, known@, current_pid, left));
                    return false;
                }
                current_pid = parent_pid;
            },
            _ => {
                assert(!table.dom().contains(current_pid) || table[current_pid] is None);
                assert(!chain_reaches_within(table, known@, current_pid, left));
                return false;
            },
        }
        step = step + 1;
    }
    false
}

/// What one step of a climb towards an ancestor found.
pub enum Climb {
    /// The parent is the ancestor.
    Found,
    /// The climb ends here without finding it.
    Stop,
    /// Continue from this parent.
    Next(u32),
}

/// One climb step from `current`, whose parent (as just read) is `parent`.
pub fn climb_step(current: u32, parent: Option<u32>, ancestor: u32) -> (r: Climb)
    ensures
        r == (match parent {
            None => Climb::Stop,
            Some(p) => if p == ancestor {
                Climb::Found
            } else if p == current {
                Climb::Stop
            } else {
                Climb::Next(p)
            },
        }),
{
    match parent {
        None => Climb::Stop,
        Some(p) => if p == ancestor {
            Climb::Found
        } else if p == current {
            Climb::Stop
        } else {
            Climb::Next(p)
        },
    }
}

/// `path` is a climb in `table`: each process on it but the last has the
/// next as its recorded parent, none of them is `a`, and none occurs twice.
spec fn climb_path(table: Map<u32, Option<u32>>, path: Seq<u32>, a: u32) -> bool {
    &&& path.len() > 0
    &&& path.no_duplicates()
    &&& forall|i: int| 0 <= i < path.len() ==> #[trigger] path[i] != a
    &&& forall|i: int|
        #![trigger path[i]]
        0 <= i < path.len() - 1 ==> table.dom().contains(path[i]) && table[path[i]] == Some(path[i + 1])
}

/// Climbing from a process on a climb path meets `a` within `n` steps
/// exactly when, after walking the rest of the path, the climb from its last
/// process meets `a` within the steps that are left.
proof fn lemma_path_within(table: Map<u32, Option<u32>>, path: Seq<u32>, a: u32, i: int, n: nat)
    requires
        climb_path(table, path, a),
        0 <= i < path.len(),
    ensures
        ancestor_within(table, path[i], a, n) == (n > path.len() - 1 - i && ancestor_within(
            table,
            path.last(),
            a,
            (n - (path.len() - 1 - i)) as nat,
        )),
    decreases path.len() - i,
{
    if i < path.len() - 1 {
        assert(table.dom().contains(path[i]) && table[path[i]] == Some(path[i + 1]));
        assert(path[i + 1] != a);
        if n > 0 {
            lemma_path_within(table, path, a, i + 1, (n - 1) as nat);
        }
    }
}

/// A climb path whose last process has an earlier one on the path as its
/// parent goes round that loop for ever and never meets `a`.
proof fn lemma_cycle_never(table: Map<u32, Option<u32>>, path: Seq<u32>, a: u32, j: int, n: nat)
    requires
        climb_path(table, path, a),
        0 <= j < path.len(),
        table.dom().contains(path.last()),
        table[path.last()] == Some(path[j]),
    ensures
        !ancestor_within(table, path.last(), a, n),
    decreases n,
{
    if n > 0 {
        assert(path[j] != a);
        lemma_path_within(table, path, a, j, (n - 1) as nat);
        let k = path.len() - 1 - j;
        if n - 1 > k {
            lemma_cycle_never(table, path, a, j, (n - 1 - k) as nat);
        }
    }
}

/// Whether `p` is among `seen`.
fn seen_pid(seen: &Vec<u32>, p: u32) -> (r: bool)
    ensures
        r == seen@.contains(p),
{
    let mut i: usize = 0;
    while i < seen.len()
        invariant
            i <= seen@.len(),
            forall|k: int| 0 <= k < i ==> seen@[k] != p,
        decreases seen@.len() - i,
    {
        if seen[i] == p {
            return true;
        }
        i = i + 1;
    }
    false
}

/// True when `target_pid` is `ancestor_pid` or runs under it, refreshing each
/// process as the climb reaches it: the climb stops at a process the table
/// does not hold, one without a parent, or one met before (a process that is
/// its own parent included), and takes at most [`MAX_CHAIN_STEPS`] steps.
/// What a refresh loads depends on the running machine, and a refresh
/// changes no other process's entry, so the answer is that bounded climb
/// over the table as it stands after the call.
pub fn pid_is_descendant_of(system: &mut System, target_pid: u32, ancestor_pid: u32) -> (r: bool)
    ensures
        r == (target_pid == ancestor_pid || ancestor_within(
            process_table(*final(system)),
            target_pid,
            ancestor_pid,
            MAX_CHAIN_STEPS as nat,
        )),
{
    if target_pid == ancestor_pid {
        return true;
    }
    let mut current_pid = target_pid;
    let mut visited: Vec<u32> = Vec::new();
    let mut step: usize = 0;
    let ghost mut path: Seq<u32> = seq![target_pid];
    while step < MAX_CHAIN_STEPS
        invariant
            step <= MAX_CHAIN_STEPS,
            target_pid != ancestor_pid,
            path.len() == step + 1,
            path[0] == target_pid,
            path.last() == current_pid,
            visited@ == path.take(step as int),
            climb_path(process_table(*system), path, ancestor_pid),
        decreases MAX_CHAIN_STEPS - step,
    {
        let ghost before = process_table(*system);
        refresh_pid(system, current_pid);
        let ghost table = process_table(*system);
        proof {
            assert forall|i: int| #![trigger path[i]] 0 <= i < path.len() - 1 implies table.dom().contains(
                path[i],
            ) && table[path[i]] == Some(path[i + 1]) by {
                assert(path[i] != path[path.len() - 1]);
                assert(before.dom().contains(path[i]) && before[path[i]] == Some(path[i + 1]));
            }
            assert(climb_path(table, path, ancestor_pid));
        }
        let parent = match process_parent(system, current_pid) {
            Some(p) => p,
            None => None,
        };
        match climb_step(current_pid, parent, ancestor_pid) {
            Climb::Found => {
                proof {
                    lemma_path_within(table, path, ancestor_pid, 0, MAX_CHAIN_STEPS as nat);
                }
                return true;
            },
            Climb::Stop => {
                proof {
                    lemma_path_within(table, path, ancestor_pid, 0, MAX_CHAIN_STEPS as nat);
                    if parent == Some(current_pid) {
                        lemma_cycle_never(
                            table,
                            path,
                            ancestor_pid,
                            path.len() - 1,
                            (MAX_CHAIN_STEPS - step) as nat,
                        );
                    }
                }
                return false;
            },
            Climb::Next(p) => {
                if seen_pid(&visited, p) {
                    proof {
                        let j = choose|j: int| 0 <= j < visited@.len() && visited@[j] == p;
                        assert(path[j] == p);
                        lemma_path_within(table, path, ancestor_pid, 0, MAX_CHAIN_STEPS as nat);
                        lemma_cycle_never(table, path, ancestor_pid, j, (MAX_CHAIN_STEPS - step) as nat);
                    }
                    return false;
                }
                proof {
                    assert(!path.contains(p)) by {
                        if path.contains(p) {
                            let j = choose|j: int| 0 <= j < path.len() && path[j] == p;
                            if j < step {
                                assert(visited@[j] == p);
                            }
                        }
                    }
                }
                visited.push(current_pid);
                proof {
                    path = path.push(p);
                    assert(visited@ =~= path.take(step + 1));
                    assert forall|i: int| #![trigger path[i]] 0 <= i < path.len() - 1 implies table.dom().contains(
                        path[i],
                    ) && table[path[i]] == Some(path[i + 1]) by {
                        if i == path.len() - 2 {
                            assert(path[i] == current_pid);
                        } else {
                            assert(path[i] == path.drop_last()[i]);
                            assert(path[i + 1] == path.drop_last()[i + 1]);
                        }
                    }
                    assert(path.no_duplicates()) by {
                        assert forall|x: int, y: int| 0 <= x < y < path.len() implies path[x] != path[y] by {
                            if y == path.len() - 1 {
                                let old_path = path.drop_last();
                                assert(path[x] == old_path[x]);
                                if old_path[x] == p {
                                    assert(old_path.contains(p));
                                }
                            } else {
                                assert(path.drop_last()[x] == path[x]);
                                assert(path.drop_last()[y] == path[y]);
                            }
                        }
                    }
                    assert forall|i: int| 0 <= i < path.len() implies #[trigger] path[i] != ancestor_pid by {
                        if i < path.len() - 1 {
                            assert(path[i] == path.drop_last()[i]);
                        }
                    }
                }
                current_pid = p;
            },
        }
        step = step + 1;
    }
    proof {
        lemma_path_within(process_table(*system), path, ancestor_pid, 0, MAX_CHAIN_STEPS as nat);
    }
    false
}

} // verus!
