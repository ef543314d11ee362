//! Launcher commands: executable scoring, save detection and backups.
use vstd::prelude::*;
use crate::text::{contains_seq, str_chars, chars_contain, chars_eq};

verus! {

/// Whether `hay` contains `needle` as a contiguous part.
pub fn str_contains(hay: &str, needle: &str) -> (r: bool)
    ensures
        r == contains_seq(hay@, needle@),
{
    let h = str_chars(hay);
    let n = str_chars(needle);
    chars_contain(&h, &n)
}

/// File names (lowercase) that mark installers, redistributables, crash
/// reporters and other tools that are not the game.
pub open spec fn blacklisted(n: Seq<char>) -> bool {
    ||| contains_seq(n, "unins"@)
    ||| contains_seq(n, "setup"@)
    ||| contains_seq(n, "crash"@)
    ||| contains_seq(n, "redist"@)
    ||| contains_seq(n, "dxwebsetup"@)
    ||| contains_seq(n, "vcredist"@)
    ||| contains_seq(n, "cef"@)
    ||| contains_seq(n, "bootstrap"@)
    ||| contains_seq(n, "dotnet"@)
    ||| contains_seq(n, "directx"@)
    ||| contains_seq(n, "dxsetup"@)
    ||| contains_seq(n, "installer"@)
    ||| contains_seq(n, "updater"@)
    ||| contains_seq(n, "reporter"@)
    ||| contains_seq(n, "helper"@)
    ||| contains_seq(n, "service"@)
    ||| contains_seq(n, "vc_redist"@)
    ||| contains_seq(n, "oalinst"@)
    ||| contains_seq(n, "physx"@)
    ||| contains_seq(n, "easyanticheat"@)
    ||| contains_seq(n, "battleye"@)
    ||| contains_seq(n, "beclient"@)
    ||| contains_seq(n, "beservice"@)
    ||| contains_seq(n, "eac_launcher"@)
    ||| contains_seq(n, "ue4prereqsetup"@)
    ||| contains_seq(n, "unrealcefsubprocess"@)
    ||| contains_seq(n, "steamwebhelper"@)
}

/// Whether a lowercase executable file name belongs to a tool rather than a game.
pub fn is_blacklisted_exe(lowercase_file_name: &str) -> (r: bool)
    ensures
        r == blacklisted(lowercase_file_name@),
{
    str_contains(lowercase_file_name, "unins") ||
        str_contains(lowercase_file_name, "setup") ||
        str_contains(lowercase_file_name, "crash") ||
        str_contains(lowercase_file_name, "redist") ||
        str_contains(lowercase_file_name, "dxwebsetup") ||
        str_contains(lowercase_file_name, "vcredist") ||
        str_contains(lowercase_file_name, "cef") ||
        str_contains(lowercase_file_name, "bootstrap") ||
        str_contains(lowercase_file_name, "dotnet") ||
        str_contains(lowercase_file_name, "directx") ||
        str_contains(lowercase_file_name, "dxsetup") ||
        str_contains(lowercase_file_name, "installer") ||
        str_contains(lowercase_file_name, "updater") ||
        str_contains(lowercase_file_name, "reporter") ||
        str_contains(lowercase_file_name, "helper") ||
        str_contains(lowercase_file_name, "service") ||
        str_contains(lowercase_file_name, "vc_redist") ||
        str_contains(lowercase_file_name, "oalinst") ||
        str_contains(lowercase_file_name, "physx") ||
        str_contains(lowercase_file_name, "easyanticheat") ||
        str_contains(lowercase_file_name, "battleye") ||
        str_contains(lowercase_file_name, "beclient") ||
        str_contains(lowercase_file_name, "beservice") ||
        str_contains(lowercase_file_name, "eac_launcher") ||
        str_contains(lowercase_file_name, "ue4prereqsetup") ||
        str_contains(lowercase_file_name, "unrealcefsubprocess") ||
        str_contains(lowercase_file_name, "steamwebhelper")
}

/// Bonus for an executable named like its game folder.
pub open spec fn name_bonus(stem: Seq<char>, game_dir: Seq<char>) -> int {
    if stem == game_dir || contains_seq(game_dir, stem) || contains_seq(stem, game_dir) {
        50
    } else {
        0
    }
}

/// Number of variant markers (`_be`, `_dx12`, `-shipping`, ...) in a stem.
pub open spec fn variant_marks(stem: Seq<char>) -> int {
    (if contains_seq(stem, "_be"@) { 1int } else { 0int }) +
    (if contains_seq(stem, "_dx12"@) { 1int } else { 0int }) +
    (if contains_seq(stem, "_dx11"@) { 1int } else { 0int }) +
    (if contains_seq(stem, "_vulkan"@) { 1int } else { 0int }) +
    (if contains_seq(stem, "_debug"@) { 1int } else { 0int }) +
    (if contains_seq(stem, "_server"@) { 1int } else { 0int }) +
    (if contains_seq(stem, "_shipping"@) { 1int } else { 0int }) +
    (if contains_seq(stem, "_launcher"@) { 1int } else { 0int }) +
    (if contains_seq(stem, "-win64"@) { 1int } else { 0int }) +
    (if contains_seq(stem, "-shipping"@) { 1int } else { 0int }) +
    (if contains_seq(stem, "dedicated"@) { 1int } else { 0int })
}

/// Bytes per point of the size bonus.
pub const SIZE_STEP: u64 = 10485760;

/// The score of a candidate executable; higher is better.
pub open spec fn exe_score(stem: Seq<char>, game_dir: Seq<char>, depth: usize, size_bytes: u64) -> int {
    name_bonus(stem, game_dir) - (depth as i32) * 5 - 30 * variant_marks(stem) + ((size_bytes / SIZE_STEP) as i32)
}

/// The score and each partial sum leading to it fit in an `i32`.
pub open spec fn exe_score_fits(stem: Seq<char>, game_dir: Seq<char>, depth: usize, size_bytes: u64) -> bool {
    let d = (depth as i32) * 5;
    let after_depth = name_bonus(stem, game_dir) - d;
    let after_marks = after_depth - 30 * variant_marks(stem);
    &&& i32::MIN <= d <= i32::MAX
    &&& i32::MIN <= after_depth <= i32::MAX
    &&& i32::MIN <= after_marks
    &&& i32::MIN <= exe_score(stem, game_dir, depth, size_bytes) <= i32::MAX
}

/// The name bonus goes either way: a stem held in the folder name, or a
/// folder name held in the stem, scores 50 more than a stem unrelated to the
/// folder name, all else equal (so `cities` in folder `cities_skylines`
/// earns it).
pub proof fn lemma_name_bonus_either_way(
    stem: Seq<char>,
    game_dir: Seq<char>,
    other_dir: Seq<char>,
    depth: usize,
    size_bytes: u64,
)
    requires
        contains_seq(game_dir, stem) || contains_seq(stem, game_dir),
        !(stem == other_dir || contains_seq(other_dir, stem) || contains_seq(stem, other_dir)),
    ensures
        exe_score(stem, game_dir, depth, size_bytes) - exe_score(stem, other_dir, depth, size_bytes) == 50,
{
}

/// Scores a candidate game executable (higher is better): a name matching the
/// game folder, a shallow location and a large file count for it; variant
/// builds (`_be`, `_dx12`, `-shipping`, ...) count against it.
pub fn score_exe_candidate(stem: &str, game_dir: &str, depth: usize, size_bytes: u64) -> (r: i32)
    requires
        exe_score_fits(stem@, game_dir@, depth, size_bytes),
    ensures
        r == exe_score(stem@, game_dir@, depth, size_bytes),
{
    let mut score: i32 = 0;
    if str_eq_chars(stem, game_dir) || str_contains(game_dir, stem) || str_contains(stem, game_dir) {
        score = score + 50;
    }
    let d: i32 = (depth as i32) * 5;
    score = score - d;
    let marks = count_variant_marks(stem);
    score = score - 30 * marks;
    let bonus: i32 = (size_bytes / SIZE_STEP) as i32;
    score = score + bonus;
    score
}

fn mark(stem: &str, suffix: &str) -> (r: i32)
    ensures
        r == (if contains_seq(stem@, suffix@) { 1int } else { 0int }),
{
    if str_contains(stem, suffix) {
        1
    } else {
        0
    }
}

fn count_variant_marks(stem: &str) -> (r: i32)
    ensures
        r == variant_marks(stem@),
        0 <= r <= 11,
{
    mark(stem, "_be") + mark(stem, "_dx12") + mark(stem, "_dx11") + mark(stem, "_vulkan") + mark(stem, "_debug") + mark(stem, "_server") + mark(stem, "_shipping") + mark(stem, "_launcher") + mark(stem, "-win64") + mark(stem, "-shipping") + mark(stem, "dedicated")
}

fn str_eq_chars(a: &str, b: &str) -> (r: bool)
    ensures
        r == (a@ == b@),
{
    let x = str_chars(a);
    let y = str_chars(b);
    chars_eq(&x, &y)
}

} // verus!
