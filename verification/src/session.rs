//! The decisions taken while a launched game runs: which process is the
//! game, when the session is over, when and where save writes are traced,
//! and what happens to the saves once it ends.
use vstd::prelude::*;
use crate::text::{lowercase, str_eq, str_lowercase, strs_view};
use crate::saveguard::{
    ancestor_within, get_save_root, pid_is_descendant_of, process_parent, process_table, save_root, MAX_CHAIN_STEPS,
};
use sysinfo::System;

verus! {

/// Whether a running process's name is the game executable's file name,
/// ignoring case.
pub fn is_game_process(process_name: &str, exe_name: &str) -> (r: bool)
    ensures
        r == (lowercase(process_name@) == lowercase(exe_name@)),
{
    let a = str_lowercase(process_name);
    let b = str_lowercase(exe_name);
    str_eq(a.as_str(), b.as_str())
}

/// Seconds after launch from which a process that merely has the game's name
/// is taken for the game.
pub const NAME_MATCH_GRACE_SECS: u64 = 3;

/// Seconds after launch during which an exited launcher does not yet end a
/// session whose game was never seen running.
pub const STARTUP_WINDOW_SECS: u64 = 12;

/// Least milliseconds between two rounds of save-write tracing.
pub const DETECTION_INTERVAL_MS: u128 = 750;

/// The first process in `m` that descends from the launched command.
pub open spec fn first_ours(m: Seq<(u32, bool)>) -> Option<u32>
    decreases m.len(),
{
    if m.len() == 0 {
        None
    } else if m[0].1 {
        Some(m[0].0)
    } else {
        first_ours(m.drop_first())
    }
}

/// The process taken for the game among the processes named like it (in the
/// order the process table lists them, each with whether it descends from the
/// launched command): the first descendant; failing that, once the grace
/// period is over, the first of them.
pub open spec fn pinned_process(m: Seq<(u32, bool)>, waited_secs: u64) -> Option<(u32, bool)> {
    match first_ours(m) {
        Some(p) => Some((p, true)),
        None => if m.len() > 0 && waited_secs >= NAME_MATCH_GRACE_SECS {
            Some((m[0].0, false))
        } else {
            None
        },
    }
}

/// Picks the game's process, and whether it is one the launcher started, from
/// the processes named like the game.
pub fn pick_game_process(matches: &Vec<(u32, bool)>, waited_secs: u64) -> (r: Option<(u32, bool)>)
    ensures
        r == pinned_process(matches@, waited_secs),
{
    let mut i: usize = 0;
    assert(matches@.skip(0) =~= matches@);
    while i < matches.len()
        invariant
            i <= matches@.len(),
            first_ours(matches@) == first_ours(matches@.skip(i as int)),
        decreases matches@.len() - i,
    {
        assert(matches@.skip(i as int).drop_first() =~= matches@.skip(i + 1));
        if matches[i].1 {
            return Some((matches[i].0, true));
        }
        i = i + 1;
    }
    if matches.len() > 0 && waited_secs >= NAME_MATCH_GRACE_SECS {
        Some((matches[0].0, false))
    } else {
        None
    }
}

/// Whether the pinned game process is one the launcher started and is still
/// in the loaded process table.
pub fn pinned_alive(system: &System, game_pid: Option<u32>, ours: bool) -> (r: bool)
    ensures
        r == (game_pid matches Some(p) && ours && process_table(*system).dom().contains(p)),
{
    match game_pid {
        Some(p) => ours && process_parent(system, p).is_some(),
        None => false,
    }
}

/// After a poll: whether the session goes on, and whether the game has been
/// seen running. While the launched command runs the session goes on; once it
/// has exited, it goes on only while the game it started runs, or, if the
/// game was never seen, during the startup window.
pub open spec fn next_poll(child_exited: bool, alive: bool, seen: bool, waited_secs: u64) -> (bool, bool) {
    if !child_exited || alive {
        (true, true)
    } else {
        (!seen && waited_secs < STARTUP_WINDOW_SECS, seen)
    }
}

/// The session's state after a poll; see [`next_poll`].
pub fn after_poll(child_exited: bool, alive: bool, seen: bool, waited_secs: u64) -> (r: (bool, bool))
    ensures
        r == next_poll(child_exited, alive, seen, waited_secs),
{
    if !child_exited || alive {
        (true, true)
    } else {
        (!seen && waited_secs < STARTUP_WINDOW_SECS, seen)
    }
}

/// Whether to trace the pending save writes now: only while no save folder
/// is known, when writes are pending, and at most once per interval.
pub fn detection_due(since_last_ms: Option<u128>, pending: usize, detected: bool) -> (r: bool)
    ensures
        r == (!detected && pending > 0 && match since_last_ms {
            Some(ms) => ms >= DETECTION_INTERVAL_MS,
            None => true,
        }),
{
    let due = match since_last_ms {
        Some(ms) => ms >= DETECTION_INTERVAL_MS,
        None => pending > 0,
    };
    due && !detected && pending > 0
}

/// `base` is a prefix of `p` by whole path components (`Path::starts_with`).
pub uninterp spec fn path_is_under(p: Seq<char>, base: Seq<char>) -> bool;

/// `Path::starts_with`: whether `base` is `p` or a folder above it, compared
/// component by component; the contract names the result.
#[verifier::external_body]
pub(crate) fn path_starts_with(p: &str, base: &str) -> (r: bool)
    ensures
        r == path_is_under(p@, base@),
{
    std::path::Path::new(p).starts_with(base)
}

/// Whether `path` lies in one of `roots` (or is one of them).
pub fn under_any_root(path: &str, roots: &Vec<String>) -> (r: bool)
    ensures
        r == exists|i: int| 0 <= i < roots@.len() && path_is_under(path@, #[trigger] roots@[i]@),
{
    let mut i: usize = 0;
    while i < roots.len()
        invariant
            i <= roots@.len(),
            forall|k: int| 0 <= k < i ==> !path_is_under(path@, #[trigger] roots@[k]@),
        decreases roots@.len() - i,
    {
        if path_starts_with(path, roots[i].as_str()) {
            return true;
        }
        i = i + 1;
    }
    false
}

/// Traces one written file: when a process holding it runs under the game
/// (checked in turn with [`pid_is_descendant_of`], which refreshes the
/// processes it climbs), the file's save root. What is returned is always
/// the file's save root; it is returned whenever the game itself holds the
/// file and the file has one; and when nothing is returned although the file
/// has a save root, the last holder checked does not climb to the game
/// within [`MAX_CHAIN_STEPS`] steps in the table as it stands after the call
/// (each earlier holder was found not to as the table stood at its turn).
pub fn attribute_write(
    system: &mut System,
    path: &str,
    locking_pids: &Vec<u32>,
    game_pid: u32,
    watch_dirs: &[String],
) -> (r: Option<String>)
    ensures
        r matches Some(s) ==> save_root(path@, strs_view(watch_dirs@)) == Some(s@),
        (save_root(path@, strs_view(watch_dirs@)) is Some && locking_pids@.contains(game_pid)) ==> r is Some,
        (save_root(path@, strs_view(watch_dirs@)) is Some && r is None && locking_pids@.len() > 0) ==> !(
        locking_pids@.last() == game_pid || ancestor_within(
            process_table(*final(system)),
            locking_pids@.last(),
            game_pid,
            MAX_CHAIN_STEPS as nat,
        )),
{
    let mut i: usize = 0;
    while i < locking_pids.len()
        invariant
            i <= locking_pids@.len(),
            save_root(path@, strs_view(watch_dirs@)) is Some ==> forall|k: int|
                0 <= k < i ==> locking_pids@[k] != game_pid,
            (save_root(path@, strs_view(watch_dirs@)) is Some && i > 0) ==> !(locking_pids@[i - 1] == game_pid
                || ancestor_within(process_table(*system), locking_pids@[i - 1], game_pid, MAX_CHAIN_STEPS as nat)),
        decreases locking_pids@.len() - i,
    {
        let pid = locking_pids[i];
        if pid_is_descendant_of(system, pid, game_pid) {
            match get_save_root(path, watch_dirs) {
                Some(root) => {
                    return Some(root);
                },
                None => {},
            }
        }
        i = i + 1;
    }
    None
}

/// What follows a session for its saves.
#[derive(Debug)]
pub enum ExitStep {
    /// Snapshot this folder.
    Backup(String),
    /// The known folder is gone: report it.
    FolderMissing(String),
    /// The session looked for a folder and found none: report it.
    NothingFound,
    /// Nothing to do.
    Nothing,
}

/// The step after a session: the folder now known (`folder`) is snapshotted
/// when it exists (`folder_exists`), reported missing when not; with no
/// folder, a session that looked for one reports finding none.
pub fn exit_step(folder: Option<String>, folder_exists: bool, ran_detection: bool) -> (r: ExitStep)
    ensures
        match folder {
            Some(f) => if folder_exists {
                r == ExitStep::Backup(f)
            } else {
                r == ExitStep::FolderMissing(f)
            },
            None => if ran_detection {
                r == ExitStep::NothingFound
            } else {
                r == ExitStep::Nothing
            },
        },
{
    match folder {
        Some(f) => if folder_exists {
            ExitStep::Backup(f)
        } else {
            ExitStep::FolderMissing(f)
        },
        None => if ran_detection {
            ExitStep::NothingFound
        } else {
            ExitStep::Nothing
        },
    }
}

/// `Path::is_dir`: whether a folder is at `path` right now. What is on disk
/// is not stated.
#[verifier::external_body]
fn is_dir(path: &str) -> (r: bool) {
    std::path::Path::new(path).is_dir()
}

/// Whether a session should watch for save writes, given whether the known
/// save folder is a folder on disk (`folder_exists`, not consulted when no
/// folder is known): when no folder is known, or the known one is gone.
pub fn detection_needed(save_path: Option<&str>, folder_exists: bool) -> (r: bool)
    ensures
        r == (save_path is None || !folder_exists),
{
    match save_path {
        None => true,
        Some(_) => !folder_exists,
    }
}

/// Whether a session should watch for save writes: when no folder is known,
/// or the known one is no longer a folder on disk. The folder check is the
/// disk's answer; [`detection_needed`] decides from it.
pub fn save_detection_needed(save_path: Option<&str>) -> (r: bool)
    ensures
        save_path is None ==> r,
{
    let folder_exists = match save_path {
        None => false,
        Some(path) => is_dir(path),
    };
    detection_needed(save_path, folder_exists)
}

} // verus!
