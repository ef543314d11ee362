//! Places on disk the launcher reasons about: the folders watched for save
//! writes, the folders it refuses to delete, and where an uninstaller may be.
use vstd::prelude::*;
use crate::library::{paths_equal, same_path};
use crate::session::{path_is_under, path_starts_with};
use crate::text::{opt_chars, parent_of, path_parent, path_push, push_path, strs_view};

verus! {

/// `base` joined with `part`, when `base` is known.
pub open spec fn joined(base: Option<Seq<char>>, part: Seq<char>) -> Seq<Seq<char>> {
    match base {
        Some(b) => seq![path_push(b, part)],
        None => Seq::empty(),
    }
}

/// The text of an optional string slice.
pub open spec fn opt_str(o: Option<&str>) -> Option<Seq<char>> {
    match o {
        Some(s) => Some(s@),
        None => None,
    }
}

fn push_joined(out: &mut Vec<String>, base: Option<&str>, part: &str)
    ensures
        strs_view(final(out)@) == strs_view(old(out)@) + joined(opt_str(base), part@),
{
    let ghost before = strs_view(out@);
    match base {
        Some(b) => {
            out.push(push_path(b, part));
            assert(strs_view(out@) =~= before + seq![path_push(b@, part@)]);
        },
        None => {
            assert(strs_view(out@) =~= before + Seq::<Seq<char>>::empty());
        },
    }
}

fn push_text(out: &mut Vec<String>, p: Option<&str>)
    ensures
        strs_view(final(out)@) == strs_view(old(out)@) + (match p {
            Some(s) => seq![s@],
            None => Seq::empty(),
        }),
{
    let ghost before = strs_view(out@);
    match p {
        Some(s) => {
            out.push(s.to_owned());
            assert(strs_view(out@) =~= before + seq![s@]);
        },
        None => {
            assert(strs_view(out@) =~= before + Seq::<Seq<char>>::empty());
        },
    }
}

/// The folders watched for save writes on Linux, before those that are not
/// folders on disk are dropped: the XDG data and config folders (defaulting
/// under the home folder), `Documents`, `Saved Games`, and the Proton, Flatpak
/// Steam and Wine prefixes; nothing without a home folder.
pub open spec fn linux_watch_list(home: Seq<char>, xdg_data: Option<Seq<char>>, xdg_config: Option<Seq<char>>) -> Seq<
    Seq<char>,
> {
    let data = match xdg_data {
        Some(d) => d,
        None => path_push(home, ".local/share"@),
    };
    let config = match xdg_config {
        Some(c) => c,
        None => path_push(home, ".config"@),
    };
    seq![
        data,
        config,
        path_push(home, "Documents"@),
        path_push(home, "Saved Games"@),
        path_push(data, "Steam/steamapps/compatdata"@),
        path_push(home, ".var/app/com.valvesoftware.Steam/.local/share/Steam/steamapps/compatdata"@),
        path_push(home, ".wine/drive_c/users"@),
    ]
}

/// The folders to watch for save writes on Linux; the caller keeps those
/// that are folders on disk.
pub fn linux_watch_candidates(home: Option<&str>, xdg_data: Option<&str>, xdg_config: Option<&str>) -> (r: Vec<
    String,
>)
    ensures
        match home {
            Some(h) => strs_view(r@) == linux_watch_list(h@, opt_str(xdg_data), opt_str(xdg_config)),
            None => r@.len() == 0,
        },
{
    let mut r: Vec<String> = Vec::new();
    match home {
        Some(h) => {
            let data = match xdg_data {
                Some(d) => d.to_owned(),
                None => push_path(h, ".local/share"),
            };
            let config = match xdg_config {
                Some(c) => c.to_owned(),
                None => push_path(h, ".config"),
            };
            let compat = push_path(data.as_str(), "Steam/steamapps/compatdata");
            r.push(data);
            r.push(config);
            r.push(push_path(h, "Documents"));
            r.push(push_path(h, "Saved Games"));
            r.push(compat);
            r.push(push_path(h, ".var/app/com.valvesoftware.Steam/.local/share/Steam/steamapps/compatdata"));
            r.push(push_path(h, ".wine/drive_c/users"));
            assert(strs_view(r@) =~= linux_watch_list(h@, opt_str(xdg_data), opt_str(xdg_config)));
        },
        None => {},
    }
    r
}

/// The folders watched for save writes on Windows, before those that are not
/// folders on disk are dropped: the roaming and local application data
/// folders, `LocalLow`, and under the user's profile `Saved Games` and the
/// documents folder (`documents` as the shell reports it, else `Documents`).
pub open spec fn windows_watch_list(
    appdata: Option<Seq<char>>,
    localappdata: Option<Seq<char>>,
    userprofile: Option<Seq<char>>,
    documents: Option<Seq<char>>,
) -> Seq<Seq<char>> {
    (match appdata {
        Some(a) => seq![a],
        None => Seq::empty(),
    }) + (match localappdata {
        Some(l) => seq![l, path_push(l, "LocalLow"@)],
        None => Seq::empty(),
    }) + (match userprofile {
        Some(u) => seq![
            path_push(u, "Saved Games"@),
            match documents {
                Some(d) => d,
                None => path_push(u, "Documents"@),
            },
        ],
        None => Seq::empty(),
    })
}

/// The folders to watch for save writes on Windows; the caller keeps those
/// that are folders on disk.
pub fn windows_watch_candidates(
    appdata: Option<&str>,
    localappdata: Option<&str>,
    userprofile: Option<&str>,
    documents: Option<&str>,
) -> (r: Vec<String>)
    ensures
        strs_view(r@) == windows_watch_list(
            opt_str(appdata),
            opt_str(localappdata),
            opt_str(userprofile),
            opt_str(documents),
        ),
{
    let mut r: Vec<String> = Vec::new();
    push_text(&mut r, appdata);
    let ghost a = strs_view(r@);
    match localappdata {
        Some(l) => {
            r.push(l.to_owned());
            r.push(push_path(l, "LocalLow"));
        },
        None => {},
    }
    let ghost b = strs_view(r@);
    assert(b =~= a + (match opt_str(localappdata) {
        Some(l) => seq![l, path_push(l, "LocalLow"@)],
        None => Seq::<Seq<char>>::empty(),
    }));
    match userprofile {
        Some(u) => {
            r.push(push_path(u, "Saved Games"));
            match documents {
                Some(d) => r.push(d.to_owned()),
                None => r.push(push_path(u, "Documents")),
            }
        },
        None => {},
    }
    assert(strs_view(r@) =~= windows_watch_list(
        opt_str(appdata),
        opt_str(localappdata),
        opt_str(userprofile),
        opt_str(documents),
    ));
    r
}

/// The folders a standalone save watcher covers: the local data, data and
/// config folders, the documents folder and its `My Games`, and under the
/// home folder `Saved Games` (on Linux also the Proton, Flatpak Steam and
/// Wine prefixes), each when known.
pub open spec fn watcher_base_list(
    local_data: Option<Seq<char>>,
    data: Option<Seq<char>>,
    config: Option<Seq<char>>,
    document: Option<Seq<char>>,
    home: Option<Seq<char>>,
    windows: bool,
) -> Seq<Seq<char>> {
    (match local_data {
        Some(x) => seq![x],
        None => Seq::empty(),
    }) + (match data {
        Some(x) => seq![x],
        None => Seq::empty(),
    }) + (match config {
        Some(x) => seq![x],
        None => Seq::empty(),
    }) + (match document {
        Some(d) => seq![d, path_push(d, "My Games"@)],
        None => Seq::empty(),
    }) + (match home {
        Some(h) => if windows {
            seq![path_push(h, "Saved Games"@)]
        } else {
            seq![
                path_push(h, "Saved Games"@),
                path_push(h, ".local/share/Steam/steamapps/compatdata"@),
                path_push(h, ".steam/steam/steamapps/compatdata"@),
                path_push(h, ".var/app/com.valvesoftware.Steam/.local/share/Steam/steamapps/compatdata"@),
                path_push(h, ".wine/drive_c/users"@),
            ]
        },
        None => Seq::empty(),
    })
}

/// The folders a standalone save watcher covers.
pub fn watcher_base_dirs(
    local_data: Option<&str>,
    data: Option<&str>,
    config: Option<&str>,
    document: Option<&str>,
    home: Option<&str>,
    windows: bool,
) -> (r: Vec<String>)
    ensures
        strs_view(r@) == watcher_base_list(
            opt_str(local_data),
            opt_str(data),
            opt_str(config),
            opt_str(document),
            opt_str(home),
            windows,
        ),
{
    let mut r: Vec<String> = Vec::new();
    push_text(&mut r, local_data);
    push_text(&mut r, data);
    push_text(&mut r, config);
    let ghost a = strs_view(r@);
    match document {
        Some(d) => {
            r.push(d.to_owned());
            r.push(push_path(d, "My Games"));
        },
        None => {},
    }
    let ghost b = strs_view(r@);
    assert(b =~= a + (match opt_str(document) {
        Some(d) => seq![d, path_push(d, "My Games"@)],
        None => Seq::<Seq<char>>::empty(),
    }));
    match home {
        Some(h) => {
            r.push(push_path(h, "Saved Games"));
            if !windows {
                r.push(push_path(h, ".local/share/Steam/steamapps/compatdata"));
                r.push(push_path(h, ".steam/steam/steamapps/compatdata"));
                r.push(push_path(h, ".var/app/com.valvesoftware.Steam/.local/share/Steam/steamapps/compatdata"));
                r.push(push_path(h, ".wine/drive_c/users"));
            }
        },
        None => {},
    }
    assert(strs_view(r@) =~= watcher_base_list(
        opt_str(local_data),
        opt_str(data),
        opt_str(config),
        opt_str(document),
        opt_str(home),
        windows,
    ));
    r
}

/// Folders never deleted on Linux: system folders, and the home folder with
/// its standard user folders when it is known.
pub open spec fn linux_protected_list(home: Option<Seq<char>>) -> Seq<Seq<char>> {
    seq![
        "/"@,
        "/etc"@,
        "/usr"@,
        "/var"@,
        "/bin"@,
        "/sbin"@,
        "/lib"@,
        "/lib64"@,
        "/boot"@,
        "/proc"@,
        "/sys"@,
        "/dev"@,
        "/run"@,
        "/tmp"@,
    ] + user_folders(home)
}

/// The home folder and its standard user folders.
pub open spec fn user_folders(home: Option<Seq<char>>) -> Seq<Seq<char>> {
    match home {
        Some(h) => seq![
            h,
            path_push(h, "Desktop"@),
            path_push(h, "Documents"@),
            path_push(h, "Downloads"@),
            path_push(h, "Videos"@),
            path_push(h, "Pictures"@),
            path_push(h, "Music"@),
        ],
        None => Seq::empty(),
    }
}

/// Folders never deleted on Windows: the user's profile with its standard
/// folders, the program folders and the system folder, each when known.
pub open spec fn windows_protected_list(
    userprofile: Option<Seq<char>>,
    program_files: Option<Seq<char>>,
    program_files_x86: Option<Seq<char>>,
    system_root: Option<Seq<char>>,
) -> Seq<Seq<char>> {
    user_folders(userprofile) + (match program_files {
        Some(p) => seq![p],
        None => Seq::empty(),
    }) + (match program_files_x86 {
        Some(p) => seq![p],
        None => Seq::empty(),
    }) + (match system_root {
        Some(p) => seq![p],
        None => Seq::empty(),
    })
}

fn push_user_folders(out: &mut Vec<String>, home: Option<&str>)
    ensures
        strs_view(final(out)@) == strs_view(old(out)@) + user_folders(opt_str(home)),
{
    let ghost before = strs_view(out@);
    match home {
        Some(h) => {
            out.push(h.to_owned());
            out.push(push_path(h, "Desktop"));
            out.push(push_path(h, "Documents"));
            out.push(push_path(h, "Downloads"));
            out.push(push_path(h, "Videos"));
            out.push(push_path(h, "Pictures"));
            out.push(push_path(h, "Music"));
            assert(strs_view(out@) =~= before + user_folders(opt_str(home)));
        },
        None => {
            assert(strs_view(out@) =~= before + Seq::<Seq<char>>::empty());
        },
    }
}

/// The folders never deleted on Linux.
pub fn linux_protected_dirs(home: Option<&str>) -> (r: Vec<String>)
    ensures
        strs_view(r@) == linux_protected_list(opt_str(home)),
{
    let mut r: Vec<String> = Vec::new();
    r.push("/".to_owned());
    r.push("/etc".to_owned());
    r.push("/usr".to_owned());
    r.push("/var".to_owned());
    r.push("/bin".to_owned());
    r.push("/sbin".to_owned());
    r.push("/lib".to_owned());
    r.push("/lib64".to_owned());
    r.push("/boot".to_owned());
    r.push("/proc".to_owned());
    r.push("/sys".to_owned());
    r.push("/dev".to_owned());
    r.push("/run".to_owned());
    r.push("/tmp".to_owned());
    push_user_folders(&mut r, home);
    assert(strs_view(r@) =~= linux_protected_list(opt_str(home)));
    r
}

/// The folders never deleted on Windows.
pub fn windows_protected_dirs(
    userprofile: Option<&str>,
    program_files: Option<&str>,
    program_files_x86: Option<&str>,
    system_root: Option<&str>,
) -> (r: Vec<String>)
    ensures
        strs_view(r@) == windows_protected_list(
            opt_str(userprofile),
            opt_str(program_files),
            opt_str(program_files_x86),
            opt_str(system_root),
        ),
{
    let mut r: Vec<String> = Vec::new();
    push_user_folders(&mut r, userprofile);
    push_text(&mut r, program_files);
    push_text(&mut r, program_files_x86);
    push_text(&mut r, system_root);
    assert(strs_view(r@) =~= windows_protected_list(
        opt_str(userprofile),
        opt_str(program_files),
        opt_str(program_files_x86),
        opt_str(system_root),
    ));
    r
}

/// `o` resolves to the same path as `c`.
pub open spec fn resolves_to(o: Option<String>, c: Seq<char>) -> bool {
    match o {
        Some(p) => same_path(c, p@),
        None => false,
    }
}

/// Whether a folder may not be deleted: a drive or file system root (no
/// parent) always; otherwise when its resolved path (`canonical`, `None` when
/// it cannot be resolved) is the resolved path of a protected folder
/// (`protected`, one entry per protected folder, `None` when that one cannot
/// be resolved). A folder that cannot be resolved is not protected.
pub open spec fn protected(has_parent: bool, canonical: Option<Seq<char>>, dirs: Seq<Option<String>>) -> bool {
    if !has_parent {
        true
    } else {
        match canonical {
            None => false,
            Some(c) => exists|i: int| 0 <= i < dirs.len() && resolves_to(#[trigger] dirs[i], c),
        }
    }
}

/// Whether a folder may not be deleted; see [`protected`].
pub fn is_protected_dir(has_parent: bool, canonical: Option<&str>, protected_dirs: &Vec<Option<String>>) -> (r: bool)
    ensures
        r == protected(has_parent, opt_str(canonical), protected_dirs@),
{
    if !has_parent {
        return true;
    }
    let c = match canonical {
        Some(c) => c,
        None => {
            return false;
        },
    };
    let mut i: usize = 0;
    while i < protected_dirs.len()
        invariant
            i <= protected_dirs@.len(),
            has_parent,
            canonical == Some(c),
            forall|k: int|
                0 <= k < i ==> !resolves_to(#[trigger] protected_dirs@[k], c@),
        decreases protected_dirs@.len() - i,
    {
        match &protected_dirs[i] {
            Some(p) => {
                if paths_equal(c, p.as_str()) {
                    assert(resolves_to(protected_dirs@[i as int], c@));
                    assert(opt_str(canonical) == Some(c@));
                    assert(protected(has_parent, opt_str(canonical), protected_dirs@));
                    return true;
                }
            },
            None => {},
        }
        i = i + 1;
    }
    false
}

/// The folder holding a game's executable (none when it has none).
pub fn game_folder(exe_path: &Option<String>) -> (r: Option<String>)
    ensures
        opt_chars(r) == path_parent(
            match exe_path {
                Some(p) => p@,
                None => Seq::empty(),
            },
        ),
{
    let empty = String::new();
    let p: &str = match exe_path {
        Some(p) => p.as_str(),
        None => empty.as_str(),
    };
    parent_of(p)
}

/// Where an uninstaller may sit next to a game's executable, in the order
/// they are tried: `unins000.exe`, then `uninstall.exe`.
pub fn uninstaller_candidates(exe_path: &Option<String>) -> (r: Vec<String>)
    ensures
        strs_view(r@) == (match path_parent(
            match exe_path {
                Some(p) => p@,
                None => Seq::empty(),
            },
        ) {
            Some(d) => seq![path_push(d, "unins000.exe"@), path_push(d, "uninstall.exe"@)],
            None => Seq::empty(),
        }),
{
    let mut r: Vec<String> = Vec::new();
    match game_folder(exe_path) {
        Some(d) => {
            r.push(push_path(d.as_str(), "unins000.exe"));
            r.push(push_path(d.as_str(), "uninstall.exe"));
            assert(strs_view(r@) =~= seq![path_push(d@, "unins000.exe"@), path_push(d@, "uninstall.exe"@)]);
        },
        None => {
            assert(strs_view(r@) =~= Seq::<Seq<char>>::empty());
        },
    }
    r
}

/// Whether an open file and a watched path concern each other: one lies in
/// the other (or they are the same).
pub fn paths_related(a: &str, b: &str) -> (r: bool)
    ensures
        r == (path_is_under(a@, b@) || path_is_under(b@, a@)),
{
    path_starts_with(a, b) || path_starts_with(b, a)
}

} // verus!
