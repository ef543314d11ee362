//! Finding games in a folder: which executables count, which folder each
//! belongs to, which one runs each game, and what each game is called.
use vstd::prelude::*;
use crate::commands::{blacklisted, exe_score, is_blacklisted_exe, score_exe_candidate, SIZE_STEP};
use crate::saveguard::{strip, strip_components};
use crate::sort::{arranged, permute, stable_text_order, text_stably_sorted};
use crate::text::{
    components_of, extension_of, file_name_of, file_stem_of, lowercase, parent_of, path_components,
    path_extension, path_file_name, path_file_stem, path_parent, str_chars, str_eq, str_lowercase,
    strs_view,
};

verus! {

/// One entry met while walking the scanned folder.
pub struct WalkEntry {
    pub path: String,
    /// Levels below the scanned folder.
    pub depth: usize,
    pub is_file: bool,
    /// The file's size, when it could be read.
    pub size: Option<u64>,
}

/// A game found by a folder scan.
#[derive(Debug, Clone)]
pub struct ScannedGame {
    pub name: String,
    pub exe_path: String,
}

/// An executable that may run a game.
pub struct ExeCandidate {
    pub path: String,
    pub depth: usize,
    /// The game's folder below the scanned one, lowercase.
    pub game_dir: String,
    pub display_name: String,
    /// The executable's file stem, lowercase.
    pub stem: String,
    pub size: u64,
}

/// What is known of a candidate, as text.
pub struct CandView {
    pub path: Seq<char>,
    pub depth: usize,
    pub game_dir: Seq<char>,
    pub display_name: Seq<char>,
    pub stem: Seq<char>,
    pub size: u64,
}

impl ExeCandidate {
    pub open spec fn view_of(self) -> CandView {
        CandView {
            path: self.path@,
            depth: self.depth,
            game_dir: self.game_dir@,
            display_name: self.display_name@,
            stem: self.stem@,
            size: self.size,
        }
    }
}

/// Executables smaller than this are taken for launchers or stubs.
pub const MIN_EXE_BYTES: u64 = 500000;

/// Deepest level the scan walks to.
pub const MAX_SCAN_DEPTH: usize = 5;

/// Folder names (lowercase) that say nothing about the game.
pub open spec fn generic_folder(n: Seq<char>) -> bool {
    ||| n == "bin"@
    ||| n == "win64"@
    ||| n == "win32"@
    ||| n == "binaries"@
    ||| n == "system32"@
    ||| n == "x64"@
    ||| n == "x86"@
    ||| n == "game"@
    ||| n == "shipping"@
}

fn is_generic_folder(n: &str) -> (r: bool)
    ensures
        r == generic_folder(n@),
{
    str_eq(n, "bin") || str_eq(n, "win64") || str_eq(n, "win32") || str_eq(n, "binaries") || str_eq(
        n,
        "system32",
    ) || str_eq(n, "x64") || str_eq(n, "x86") || str_eq(n, "game") || str_eq(n, "shipping")
}

/// The text, or nothing.
pub open spec fn or_empty(o: Option<Seq<char>>) -> Seq<char> {
    match o {
        Some(s) => s,
        None => Seq::empty(),
    }
}

/// The name of the folder holding `p`, or `fallback`.
pub open spec fn parent_name(p: Seq<char>, fallback: Seq<char>) -> Seq<char> {
    match path_parent(p) {
        Some(pp) => match path_file_name(pp) {
            Some(n) => n,
            None => fallback,
        },
        None => fallback,
    }
}

/// The name shown for the game run by `p`: the folder holding it, or, when
/// that folder has a generic name (`bin`, `win64`, ...), the one above it;
/// `game_dir` when there is no such folder.
pub open spec fn display_name_for(p: Seq<char>, game_dir: Seq<char>) -> Seq<char> {
    let holder = parent_name(p, game_dir);
    if generic_folder(lowercase(holder)) {
        match path_parent(p) {
            Some(pp) => parent_name(pp, game_dir),
            None => game_dir,
        }
    } else {
        holder
    }
}

/// The display name skips a holder folder with a name that says nothing
/// about the game (`bin`, `win64`, `win32`, `binaries`, `system32`, `x64`,
/// `x86`, `game` or `shipping`, in any case): the game is named after the
/// folder above it. A holder with any other name names the game itself.
pub proof fn lemma_generic_holder_skipped(p: Seq<char>, game_dir: Seq<char>)
    ensures
        ({
            let holder = lowercase(parent_name(p, game_dir));
            let generic = holder == "bin"@ || holder == "win64"@ || holder == "win32"@ || holder
                == "binaries"@ || holder == "system32"@ || holder == "x64"@ || holder == "x86"@
                || holder == "game"@ || holder == "shipping"@;
            &&& generic ==> display_name_for(p, game_dir) == match path_parent(p) {
                Some(pp) => parent_name(pp, game_dir),
                None => game_dir,
            }
            &&& !generic ==> display_name_for(p, game_dir) == parent_name(p, game_dir)
        }),
{
}

/// The file at `p` has the extension `exe`, in any case.
pub open spec fn has_exe_extension(p: Seq<char>) -> bool {
    match path_extension(p) {
        Some(ext) => lowercase(ext) == "exe"@,
        None => false,
    }
}

/// The entry counts as a candidate before its place in the folder is known.
pub open spec fn usable_exe(e: WalkEntry) -> bool {
    &&& e.is_file
    &&& has_exe_extension(e.path@)
    &&& !blacklisted(lowercase(or_empty(path_file_name(e.path@))))
    &&& !(e.size matches Some(s) && s < MIN_EXE_BYTES)
}

/// What a walked entry contributes to a scan of `folder`.
pub open spec fn candidate_of(folder: Seq<char>, e: WalkEntry) -> Option<CandView> {
    if !usable_exe(e) {
        None
    } else {
        match strip(path_components(e.path@), path_components(folder)) {
            Some(rel) => if rel.len() == 0 {
                None
            } else {
                let stem = lowercase(or_empty(path_file_stem(e.path@)));
                let dir = if rel.len() == 1 {
                    stem
                } else {
                    rel[0]
                };
                Some(
                    CandView {
                        path: e.path@,
                        depth: e.depth,
                        game_dir: lowercase(dir),
                        display_name: display_name_for(e.path@, dir),
                        stem,
                        size: match e.size {
                            Some(s) => s,
                            None => 0,
                        },
                    },
                )
            },
            None => None,
        }
    }
}

fn exe_extension(p: &str) -> (r: bool)
    ensures
        r == has_exe_extension(p@),
{
    match extension_of(p) {
        Some(ext) => {
            let l = str_lowercase(ext.as_str());
            str_eq(l.as_str(), "exe")
        },
        None => false,
    }
}

fn text_or(o: Option<String>, fallback: &String) -> (r: String)
    ensures
        r@ == (match o {
            Some(s) => s@,
            None => fallback@,
        }),
{
    match o {
        Some(s) => s,
        None => fallback.clone(),
    }
}

fn holder_name(p: &str, fallback: &String) -> (r: String)
    ensures
        r@ == parent_name(p@, fallback@),
{
    match parent_of(p) {
        Some(pp) => text_or(file_name_of(pp.as_str()), fallback),
        None => fallback.clone(),
    }
}

fn display_name(p: &str, game_dir: &String) -> (r: String)
    ensures
        r@ == display_name_for(p@, game_dir@),
{
    let holder = holder_name(p, game_dir);
    let l = str_lowercase(holder.as_str());
    if is_generic_folder(l.as_str()) {
        match parent_of(p) {
            Some(pp) => holder_name(pp.as_str(), game_dir),
            None => game_dir.clone(),
        }
    } else {
        holder
    }
}

fn usable(e: &WalkEntry) -> (r: bool)
    ensures
        r == usable_exe(*e),
{
    if !e.is_file || !exe_extension(e.path.as_str()) {
        return false;
    }
    let name = match file_name_of(e.path.as_str()) {
        Some(n) => n,
        None => String::new(),
    };
    let lower = str_lowercase(name.as_str());
    if is_blacklisted_exe(lower.as_str()) {
        return false;
    }
    match e.size {
        Some(s) => s >= MIN_EXE_BYTES,
        None => true,
    }
}

/// The candidate a walked entry gives in a scan of `folder`, if any.
pub fn classify_entry(folder: &str, e: &WalkEntry) -> (r: Option<ExeCandidate>)
    ensures
        match candidate_of(folder@, *e) {
            Some(c) => r matches Some(x) && x.view_of() == c,
            None => r is None,
        },
{
    if !usable(e) {
        return None;
    }
    let pc = components_of(e.path.as_str());
    let fc = components_of(folder);
    let rel = match strip_components(&pc, &fc) {
        Some(rel) => rel,
        None => {
            return None;
        },
    };
    if rel.len() == 0 {
        return None;
    }
    let stem_raw = match file_stem_of(e.path.as_str()) {
        Some(s) => s,
        None => String::new(),
    };
    let stem = str_lowercase(stem_raw.as_str());
    let dir = if rel.len() == 1 {
        stem.clone()
    } else {
        assert(strs_view(rel@)[0] == rel@[0]@);
        rel[0].clone()
    };
    let game_dir = str_lowercase(dir.as_str());
    let display_name = display_name(e.path.as_str(), &dir);
    let size = match e.size {
        Some(s) => s,
        None => 0,
    };
    Some(ExeCandidate { path: e.path.clone(), depth: e.depth, game_dir, display_name, stem, size })
}

/// The candidates of a scan of `folder`, in walk order.
pub open spec fn candidates(folder: Seq<char>, es: Seq<WalkEntry>) -> Seq<CandView>
    decreases es.len(),
{
    if es.len() == 0 {
        Seq::empty()
    } else {
        let rest = candidates(folder, es.drop_last());
        match candidate_of(folder, es.last()) {
            Some(c) => rest.push(c),
            None => rest,
        }
    }
}

/// The score of a candidate.
pub open spec fn cand_score(c: CandView) -> int {
    exe_score(c.stem, c.game_dir, c.depth, c.size)
}

/// Some index in `best` already points at a candidate in folder `dir`.
pub open spec fn has_slot(cs: Seq<CandView>, best: Seq<int>, dir: Seq<char>) -> bool {
    exists|t: int| 0 <= t < best.len() && (#[trigger] cs[best[t]]).game_dir == dir
}

/// For each game folder, in the order the folders were first met, the index
/// of its best candidate: the highest score, the earliest among equals.
pub open spec fn best_per_dir(cs: Seq<CandView>) -> Seq<int>
    decreases cs.len(),
{
    if cs.len() == 0 {
        Seq::empty()
    } else {
        let prev = best_per_dir(cs.drop_last());
        let i = cs.len() - 1;
        let c = cs[i];
        if has_slot(cs, prev, c.game_dir) {
            let t = choose|t: int| 0 <= t < prev.len() && (#[trigger] cs[prev[t]]).game_dir == c.game_dir;
            if cand_score(c) > cand_score(cs[prev[t]]) {
                prev.update(t, i)
            } else {
                prev
            }
        } else {
            prev.push(i)
        }
    }
}

proof fn lemma_best_distinct(cs: Seq<CandView>)
    ensures
        forall|t: int| 0 <= t < best_per_dir(cs).len() ==> 0 <= #[trigger] best_per_dir(cs)[t] < cs.len(),
        forall|a: int, b: int|
            #![trigger best_per_dir(cs)[a], best_per_dir(cs)[b]]
            0 <= a < b < best_per_dir(cs).len() ==> cs[best_per_dir(cs)[a]].game_dir != cs[best_per_dir(cs)[b]].game_dir,
    decreases cs.len(),
{
    if cs.len() > 0 {
        let pre = cs.drop_last();
        lemma_best_distinct(pre);
        let prev = best_per_dir(pre);
        let i = cs.len() - 1;
        let c = cs[i];
        let now = best_per_dir(cs);
        assert forall|t: int| 0 <= t < prev.len() implies cs[prev[t]] == pre[prev[t]] by {}
        if has_slot(cs, prev, c.game_dir) {
            let t0 = choose|t: int| 0 <= t < prev.len() && (#[trigger] cs[prev[t]]).game_dir == c.game_dir;
            assert forall|t: int| 0 <= t < now.len() implies cs[now[t]].game_dir == cs[prev[t]].game_dir && 0 <= now[t]
                < cs.len() by {}
            assert forall|a: int, b: int| #![trigger now[a], now[b]] 0 <= a < b < now.len() implies cs[now[a]].game_dir
                != cs[now[b]].game_dir by {
                assert(cs[now[a]].game_dir == cs[prev[a]].game_dir);
                assert(cs[now[b]].game_dir == cs[prev[b]].game_dir);
                assert(pre[prev[a]].game_dir != pre[prev[b]].game_dir);
            }
        } else {
            assert(now == prev.push(i));
            assert forall|a: int, b: int| #![trigger now[a], now[b]] 0 <= a < b < now.len() implies cs[now[a]].game_dir
                != cs[now[b]].game_dir by {
                if b == now.len() - 1 {
                    assert(now[a] == prev[a]);
                    if cs[prev[a]].game_dir == c.game_dir {
                        assert(has_slot(cs, prev, c.game_dir));
                    }
                } else {
                    assert(now[a] == prev[a] && now[b] == prev[b]);
                    assert(pre[prev[a]].game_dir != pre[prev[b]].game_dir);
                }
            }
        }
    }
}

proof fn lemma_best_covers(cs: Seq<CandView>)
    ensures
        forall|i: int| 0 <= i < cs.len() ==> has_slot(cs, best_per_dir(cs), (#[trigger] cs[i]).game_dir),
    decreases cs.len(),
{
    if cs.len() > 0 {
        let pre = cs.drop_last();
        lemma_best_covers(pre);
        lemma_best_distinct(pre);
        let prev = best_per_dir(pre);
        let i = cs.len() - 1;
        let c = cs[i];
        let now = best_per_dir(cs);
        assert forall|t: int| 0 <= t < prev.len() implies cs[prev[t]] == pre[prev[t]] by {}
        let slot = has_slot(cs, prev, c.game_dir);
        let t0 = choose|t: int| 0 <= t < prev.len() && (#[trigger] cs[prev[t]]).game_dir == c.game_dir;
        assert forall|t: int| 0 <= t < prev.len() implies cs[now[t]].game_dir == cs[prev[t]].game_dir by {
            if !slot {
                assert(now[t] == prev[t]);
            }
        }
        assert forall|j: int| 0 <= j < cs.len() implies has_slot(cs, now, (#[trigger] cs[j]).game_dir) by {
            if j < i {
                assert(pre[j] == cs[j]);
                assert(has_slot(pre, prev, pre[j].game_dir));
                let t = choose|t: int| 0 <= t < prev.len() && (#[trigger] pre[prev[t]]).game_dir == pre[j].game_dir;
                assert(cs[now[t]].game_dir == cs[prev[t]].game_dir);
            } else if slot {
                assert(cs[now[t0]].game_dir == cs[prev[t0]].game_dir);
            } else {
                assert(now == prev.push(i));
                assert(now[prev.len() as int] == i);
            }
        }
    }
}

/// One result per game folder: the chosen candidates sit in distinct
/// folders, each is a candidate, and every candidate's folder has one.
pub proof fn lemma_one_per_game_folder(cs: Seq<CandView>)
    ensures
        forall|t: int| 0 <= t < best_per_dir(cs).len() ==> 0 <= #[trigger] best_per_dir(cs)[t] < cs.len(),
        forall|a: int, b: int|
            #![trigger best_per_dir(cs)[a], best_per_dir(cs)[b]]
            0 <= a < b < best_per_dir(cs).len() ==> cs[best_per_dir(cs)[a]].game_dir != cs[best_per_dir(cs)[b]].game_dir,
        forall|i: int| 0 <= i < cs.len() ==> has_slot(cs, best_per_dir(cs), (#[trigger] cs[i]).game_dir),
{
    lemma_best_distinct(cs);
    lemma_best_covers(cs);
}

/// Every candidate's score fits the scoring arithmetic.
pub open spec fn scan_entry_ok(e: WalkEntry) -> bool {
    &&& e.depth <= MAX_SCAN_DEPTH
    &&& match e.size {
        Some(s) => s / SIZE_STEP <= 0x7fff_0000,
        None => true,
    }
}

/// The games found in a scan of `folder` whose walk met `entries`: one per
/// game folder (its best executable, named by [`display_name_for`]), sorted
/// by lowercase name with ties kept in the order the folders were met.
pub open spec fn scan_result_ok(folder: Seq<char>, entries: Seq<WalkEntry>, r: Seq<ScannedGame>) -> bool {
    let cs = candidates(folder, entries);
    let winners = best_per_dir(cs).map_values(|t: int| cs[t]);
    exists|order: Seq<usize>|
        #![trigger arranged(winners, order)]
        text_stably_sorted(winners.map_values(|c: CandView| lowercase(c.display_name)), order, false) && r.len()
            == order.len() && forall|k: int|
            0 <= k < r.len() ==> (#[trigger] r[k]).name@ == arranged(winners, order)[k].display_name && r[k].exe_path@
                == arranged(winners, order)[k].path
}

/// The place in `best` of the candidate chosen so far for folder `dir`.
fn find_slot(cs: &Vec<ExeCandidate>, best: &Vec<usize>, dir: &str) -> (r: Option<usize>)
    requires
        forall|t: int| 0 <= t < best@.len() ==> best@[t] < cs@.len(),
    ensures
        match r {
            Some(t) => t < best@.len() && cs@[best@[t as int] as int].game_dir@ == dir@ && forall|u: int|
                0 <= u < t ==> cs@[best@[u] as int].game_dir@ != dir@,
            None => forall|u: int| 0 <= u < best@.len() ==> cs@[best@[u] as int].game_dir@ != dir@,
        },
{
    let mut t: usize = 0;
    while t < best.len()
        invariant
            forall|u: int| 0 <= u < best@.len() ==> best@[u] < cs@.len(),
            t <= best@.len(),
            forall|u: int| 0 <= u < t ==> cs@[best@[u] as int].game_dir@ != dir@,
        decreases best@.len() - t,
    {
        if str_eq(cs[best[t]].game_dir.as_str(), dir) {
            return Some(t);
        }
        t = t + 1;
    }
    None
}

/// Groups candidates by game folder and keeps each folder's best one, in the
/// order the folders were first met.
fn pick_best(cs: &Vec<ExeCandidate>) -> (r: Vec<usize>)
    requires
        forall|i: int| 0 <= i < cs@.len() ==> cs@[i].depth <= MAX_SCAN_DEPTH && cs@[i].size / SIZE_STEP <= 0x7fff_0000,
    ensures
        r@.map_values(|t: usize| t as int) == best_per_dir(cs@.map_values(|c: ExeCandidate| c.view_of())),
        forall|t: int| 0 <= t < r@.len() ==> r@[t] < cs@.len(),
{
    let ghost cv = cs@.map_values(|c: ExeCandidate| c.view_of());
    let mut best: Vec<usize> = Vec::new();
    let mut scores: Vec<i32> = Vec::new();
    let mut i: usize = 0;
    while i < cs.len()
        invariant
            cv == cs@.map_values(|c: ExeCandidate| c.view_of()),
            forall|k: int| 0 <= k < cs@.len() ==> cs@[k].depth <= MAX_SCAN_DEPTH && cs@[k].size / SIZE_STEP <= 0x7fff_0000,
            i <= cs@.len(),
            best@.map_values(|t: usize| t as int) == best_per_dir(cv.take(i as int)),
            scores@.len() == best@.len(),
            forall|t: int| 0 <= t < best@.len() ==> best@[t] < i,
            forall|t: int| 0 <= t < best@.len() ==> scores@[t] == cand_score(#[trigger] cv[best@[t] as int]),
            forall|a: int, b: int|
                0 <= a < b < best@.len() ==> cv[best@[a] as int].game_dir != cv[best@[b] as int].game_dir,
        decreases cs@.len() - i,
    {
        let ghost prefix = cv.take(i + 1);
        let ghost prev = best_per_dir(cv.take(i as int));
        assert(prefix.drop_last() =~= cv.take(i as int));
        assert(prefix[i as int] == cv[i as int]);
        assert forall|t: int| 0 <= t < prev.len() implies prefix[prev[t]] == cv[prev[t]] by {
            assert(best@.map_values(|t: usize| t as int)[t] == best@[t] as int);
        }
        let c = &cs[i];
        let sc = score_exe_candidate(c.stem.as_str(), c.game_dir.as_str(), c.depth, c.size);
        let slot = find_slot(cs, &best, c.game_dir.as_str());
        proof {
            assert forall|u: int| 0 <= u < best@.len() implies #[trigger] cv[best@[u] as int].game_dir
                == cs@[best@[u] as int].game_dir@ by {}
            assert(cv[i as int].game_dir == cs@[i as int].game_dir@);
        }
        match slot {
            Some(t) => {
                proof {
                    assert(prev[t as int] == best@[t as int] as int);
                    assert(prefix[prev[t as int]] == cv[best@[t as int] as int]);
                    assert(has_slot(prefix, prev, cv[i as int].game_dir));
                    let ch = choose|u: int|
                        0 <= u < prev.len() && (#[trigger] prefix[prev[u]]).game_dir == cv[i as int].game_dir;
                    assert(prev[ch] == best@[ch] as int);
                    if ch != t as int {
                        if ch < t {
                            assert(cv[best@[ch] as int].game_dir != cv[i as int].game_dir);
                        } else {
                            assert(cv[best@[t as int] as int].game_dir != cv[best@[ch] as int].game_dir);
                        }
                    }
                }
                if sc > scores[t] {
                    best.set(t, i);
                    scores.set(t, sc);
                    assert(best@.map_values(|t: usize| t as int) =~= prev.update(t as int, i as int));
                } else {
                    assert(best@.map_values(|t: usize| t as int) =~= prev);
                }
            },
            None => {
                proof {
                    assert forall|u: int| 0 <= u < prev.len() implies (#[trigger] prefix[prev[u]]).game_dir
                        != cv[i as int].game_dir by {
                        assert(prev[u] == best@[u] as int);
                        assert(cv[best@[u] as int].game_dir == cs@[best@[u] as int].game_dir@);
                    }
                    assert(!has_slot(prefix, prev, cv[i as int].game_dir));
                }
                best.push(i);
                scores.push(sc);
                assert(best@.map_values(|t: usize| t as int) =~= prev.push(i as int));
            },
        }
        i = i + 1;
    }
    assert(cv.take(i as int) =~= cv);
    best
}

/// The games in a scanned folder, from the entries its walk met (in walk
/// order): for each game folder the best executable, sorted by name.
pub fn scan_games(folder: &str, entries: &Vec<WalkEntry>) -> (r: Vec<ScannedGame>)
    requires
        forall|i: int| 0 <= i < entries@.len() ==> scan_entry_ok(#[trigger] entries@[i]),
    ensures
        scan_result_ok(folder@, entries@, r@),
{
    let mut cs: Vec<ExeCandidate> = Vec::new();
    let mut i: usize = 0;
    while i < entries.len()
        invariant
            i <= entries@.len(),
            forall|k: int| 0 <= k < entries@.len() ==> scan_entry_ok(#[trigger] entries@[k]),
            cs@.map_values(|c: ExeCandidate| c.view_of()) == candidates(folder@, entries@.take(i as int)),
            forall|k: int| 0 <= k < cs@.len() ==> cs@[k].depth <= MAX_SCAN_DEPTH && cs@[k].size / SIZE_STEP <= 0x7fff_0000,
        decreases entries@.len() - i,
    {
        assert(entries@.take(i + 1).drop_last() =~= entries@.take(i as int));
        assert(scan_entry_ok(entries@[i as int]));
        match classify_entry(folder, &entries[i]) {
            Some(c) => {
                cs.push(c);
            },
            None => {},
        }
        i = i + 1;
        assert(cs@.map_values(|c: ExeCandidate| c.view_of()) =~= candidates(folder@, entries@.take(i as int)));
    }
    assert(entries@.take(i as int) =~= entries@);
    let ghost cv = cs@.map_values(|c: ExeCandidate| c.view_of());
    let best = pick_best(&cs);
    let ghost winners = best_per_dir(cv).map_values(|t: int| cv[t]);
    let mut games: Vec<ScannedGame> = Vec::new();
    let mut keys: Vec<Vec<char>> = Vec::new();
    let mut k: usize = 0;
    while k < best.len()
        invariant
            cv == cs@.map_values(|c: ExeCandidate| c.view_of()),
            best@.map_values(|t: usize| t as int) == best_per_dir(cv),
            forall|t: int| 0 <= t < best@.len() ==> best@[t] < cs@.len(),
            winners == best_per_dir(cv).map_values(|t: int| cv[t]),
            k <= best@.len(),
            games@.len() == k,
            keys@.len() == k,
            forall|u: int| 0 <= u < k ==> (#[trigger] games@[u]).name@ == winners[u].display_name
                && games@[u].exe_path@ == winners[u].path,
            forall|u: int| 0 <= u < k ==> (#[trigger] keys@[u])@ == lowercase(winners[u].display_name),
        decreases best@.len() - k,
    {
        let c = &cs[best[k]];
        proof {
            assert(best@.map_values(|t: usize| t as int)[k as int] == best@[k as int] as int);
            assert(winners[k as int] == cv[best@[k as int] as int]);
        }
        let name = c.display_name.clone();
        let key = str_chars(str_lowercase(name.as_str()).as_str());
        games.push(ScannedGame { name, exe_path: c.path.clone() });
        keys.push(key);
        k = k + 1;
    }
    let order = stable_text_order(&keys, false);
    let ghost kv = keys@.map_values(|x: Vec<char>| x@);
    proof {
        assert(kv =~= winners.map_values(|c: CandView| lowercase(c.display_name)));
    }
    let ghost gs = games@;
    let sorted = permute(games, &order);
    proof {
        let o = order@;
        assert forall|u: int| 0 <= u < sorted@.len() implies (#[trigger] sorted@[u]).name@ == arranged(winners, o)[u].display_name
            && sorted@[u].exe_path@ == arranged(winners, o)[u].path by {
            assert(sorted@[u] == gs[o[u] as int]);
        }
        assert(text_stably_sorted(winners.map_values(|c: CandView| lowercase(c.display_name)), o, false));
        assert(cv == candidates(folder@, entries@));
        assert(sorted@.len() == o.len());
        let w = arranged(winners, o);
        assert(scan_result_ok(folder@, entries@, sorted@));
    }
    sorted
}

/// Scans a folder for games: an error when it is not an existing folder
/// (`folder_is_dir`), else [`scan_games`] over what its walk met.
pub fn scan_folder(folder_path: &str, folder_is_dir: bool, entries: &Vec<WalkEntry>) -> (r: Result<
    Vec<ScannedGame>,
    String,
>)
    requires
        forall|i: int| 0 <= i < entries@.len() ==> scan_entry_ok(#[trigger] entries@[i]),
    ensures
        !folder_is_dir ==> (r matches Err(e) && e@ == "Invalid folder path"@),
        folder_is_dir ==> (r matches Ok(games) && scan_result_ok(folder_path@, entries@, games@)),
{
    if !folder_is_dir {
        return Err("Invalid folder path".to_owned());
    }
    Ok(scan_games(folder_path, entries))
}

} // verus!
