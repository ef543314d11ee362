//! The game library: its records, the edits made to them, and the
//! bookkeeping done when a play session ends.
use vstd::prelude::*;
use crate::text::{file_name_of, opt_chars, path_file_name, str_chars, str_eq, string_from_chars, trim_chars, trimmed};
use crate::sort::{arranged, permute, stable_order, stably_sorted};

verus! {

/// One game in the library.
#[derive(Debug, Clone)]
pub struct Game {
    pub id: String,
    pub name: String,
    pub exe_path: Option<String>,
    pub wallpaper: Option<String>,
    pub logo_path: Option<String>,
    pub font_family: Option<String>,
    pub font_color: Option<String>,
    pub playtime_minutes: u32,
    pub session_count: u32,
    pub last_played: Option<String>,
    pub status: Option<String>,
    pub added_at: String,
    pub save_path: Option<String>,
    pub save_path_source: Option<String>,
    pub backup_count: Option<u32>,
    pub is_installed: Option<bool>,
    pub favorite: bool,
    pub tags: Vec<String>,
}

/// Snapshots kept per game when none is configured.
pub const DEFAULT_BACKUP_COUNT: u32 = 5;

/// Tag recorded for a save folder the user chose.
pub fn manual_source() -> (r: String)
    ensures
        r@ == seq!['m', 'a', 'n', 'u', 'a', 'l'],
{
    proof {
        reveal_strlit("manual");
    }
    "manual".to_owned()
}

/// Tag recorded for a save folder found by watching a session.
pub fn auto_source() -> (r: String)
    ensures
        r@ == seq!['a', 'u', 't', 'o'],
{
    proof {
        reveal_strlit("auto");
    }
    "auto".to_owned()
}

/// A new library entry: never played, installed, keeping five snapshots, its
/// save folder marked as chosen by hand when one is given.
pub fn new_game(
    id: String,
    name: String,
    exe_path: Option<String>,
    wallpaper: Option<String>,
    logo_path: Option<String>,
    font_family: Option<String>,
    font_color: Option<String>,
    added_at: String,
    save_path: Option<String>,
) -> (r: Game)
    ensures
        r.id == id,
        r.name == name,
        r.exe_path == exe_path,
        r.wallpaper == wallpaper,
        r.logo_path == logo_path,
        r.font_family == font_family,
        r.font_color == font_color,
        r.playtime_minutes == 0,
        r.session_count == 0,
        r.last_played is None,
        r.status is None,
        r.added_at == added_at,
        r.save_path == save_path,
        opt_chars(r.save_path_source) == (if save_path is Some {
            Some(seq!['m', 'a', 'n', 'u', 'a', 'l'])
        } else {
            None
        }),
        r.backup_count == Some(DEFAULT_BACKUP_COUNT),
        r.is_installed == Some(true),
        !r.favorite,
        r.tags@.len() == 0,
{
    let save_path_source = match &save_path {
        Some(_) => Some(manual_source()),
        None => None,
    };
    Game {
        id,
        name,
        exe_path,
        wallpaper,
        logo_path,
        font_family,
        font_color,
        playtime_minutes: 0,
        session_count: 0,
        last_played: None,
        is_installed: Some(true),
        status: None,
        added_at,
        save_path_source,
        save_path,
        backup_count: Some(DEFAULT_BACKUP_COUNT),
        favorite: false,
        tags: Vec::new(),
    }
}

/// What an edit request says about one optional text field.
pub enum FieldUpdate {
    /// The field is not mentioned.
    Absent,
    /// The field is sent as null: clear it.
    Null,
    /// The field is sent as text: set it.
    Text(String),
    /// The field is sent as something else: leave it.
    Other,
}

/// The optional field after applying `update` to `old`.
pub open spec fn updated_field(update: FieldUpdate, old: Option<String>) -> Option<String> {
    match update {
        FieldUpdate::Null => None,
        FieldUpdate::Text(s) => Some(s),
        _ => old,
    }
}

/// Applies an edit to one optional text field: null clears it, text sets it,
/// anything else leaves it as it was.
pub fn apply_optional(value: &FieldUpdate, target: &mut Option<String>)
    ensures
        *final(target) == updated_field(*value, *old(target)),
{
    match value {
        FieldUpdate::Null => {
            *target = None;
        },
        FieldUpdate::Text(s) => {
            *target = Some(s.clone());
        },
        _ => {},
    }
}

/// What an edit request says about the save folder.
pub enum SavePathUpdate {
    /// Not mentioned, or sent as neither null nor text.
    Unchanged,
    /// Sent as null: forget the folder.
    Clear,
    /// Sent as text, already checked and resolved: `None` when it was blank.
    Resolved(Option<String>),
}

/// What an edit request says about the tags.
pub enum TagsUpdate {
    /// Not mentioned, or sent as neither null nor a list.
    Unchanged,
    /// Sent as null: no tags.
    Clear,
    /// Sent as a list; entries that are not text are `None`.
    List(Vec<Option<String>>),
}

/// An edit request for one game, as plain values.
pub struct GameUpdates {
    pub name: Option<String>,
    pub exe_path: FieldUpdate,
    pub wallpaper: FieldUpdate,
    pub logo_path: FieldUpdate,
    pub font_family: FieldUpdate,
    pub font_color: FieldUpdate,
    pub status: FieldUpdate,
    pub save_path: SavePathUpdate,
    pub backup_count: Option<u64>,
    pub favorite: Option<bool>,
    pub tags: TagsUpdate,
}

/// The text entries of a list, in order.
pub open spec fn text_entries(l: Seq<Option<String>>) -> Seq<String>
    decreases l.len(),
{
    if l.len() == 0 {
        Seq::empty()
    } else {
        let rest = text_entries(l.drop_last());
        match l.last() {
            Some(s) => rest.push(s),
            None => rest,
        }
    }
}

fn keep_text(l: &Vec<Option<String>>) -> (r: Vec<String>)
    ensures
        r@ == text_entries(l@),
{
    let mut r: Vec<String> = Vec::new();
    let mut i: usize = 0;
    while i < l.len()
        invariant
            i <= l@.len(),
            r@ == text_entries(l@.take(i as int)),
        decreases l@.len() - i,
    {
        assert(l@.take(i + 1).drop_last() =~= l@.take(i as int));
        match &l[i] {
            Some(s) => r.push(s.clone()),
            None => {},
        }
        i = i + 1;
    }
    assert(l@.take(i as int) =~= l@);
    r
}

/// Applies an edit request to a game. Fields the request does not mention
/// keep their values; play statistics, identity and dates never change here.
pub fn apply_updates(game: &mut Game, u: &GameUpdates)
    ensures
        final(game).id == old(game).id,
        final(game).name == (match u.name {
            Some(n) => n,
            None => old(game).name,
        }),
        final(game).exe_path == updated_field(u.exe_path, old(game).exe_path),
        final(game).wallpaper == updated_field(u.wallpaper, old(game).wallpaper),
        final(game).logo_path == updated_field(u.logo_path, old(game).logo_path),
        final(game).font_family == updated_field(u.font_family, old(game).font_family),
        final(game).font_color == updated_field(u.font_color, old(game).font_color),
        final(game).status == updated_field(u.status, old(game).status),
        match u.save_path {
            SavePathUpdate::Unchanged => final(game).save_path == old(game).save_path
                && final(game).save_path_source == old(game).save_path_source,
            SavePathUpdate::Clear => final(game).save_path is None && final(game).save_path_source is None,
            SavePathUpdate::Resolved(p) => final(game).save_path == p && opt_chars(final(game).save_path_source)
                == (if p is Some {
                Some(seq!['m', 'a', 'n', 'u', 'a', 'l'])
            } else {
                None
            }),
        },
        final(game).backup_count == (match u.backup_count {
            Some(c) => Some(c as u32),
            None => old(game).backup_count,
        }),
        final(game).favorite == (match u.favorite {
            Some(f) => f,
            None => old(game).favorite,
        }),
        final(game).tags@ == (match u.tags {
            TagsUpdate::Unchanged => old(game).tags@,
            TagsUpdate::Clear => Seq::empty(),
            TagsUpdate::List(l) => text_entries(l@),
        }),
        final(game).playtime_minutes == old(game).playtime_minutes,
        final(game).session_count == old(game).session_count,
        final(game).last_played == old(game).last_played,
        final(game).added_at == old(game).added_at,
        final(game).is_installed == old(game).is_installed,
{
    match &u.name {
        Some(n) => {
            game.name = n.clone();
        },
        None => {},
    }
    apply_optional(&u.exe_path, &mut game.exe_path);
    apply_optional(&u.wallpaper, &mut game.wallpaper);
    apply_optional(&u.logo_path, &mut game.logo_path);
    apply_optional(&u.font_family, &mut game.font_family);
    apply_optional(&u.font_color, &mut game.font_color);
    apply_optional(&u.status, &mut game.status);
    match &u.save_path {
        SavePathUpdate::Unchanged => {},
        SavePathUpdate::Clear => {
            game.save_path = None;
            game.save_path_source = None;
        },
        SavePathUpdate::Resolved(p) => {
            game.save_path = p.clone();
            game.save_path_source = match p {
                Some(_) => Some(manual_source()),
                None => None,
            };
        },
    }
    match u.backup_count {
        Some(c) => {
            game.backup_count = Some(c as u32);
        },
        None => {},
    }
    match u.favorite {
        Some(f) => {
            game.favorite = f;
        },
        None => {},
    }
    match &u.tags {
        TagsUpdate::Unchanged => {},
        TagsUpdate::Clear => {
            game.tags = Vec::new();
        },
        TagsUpdate::List(l) => {
            game.tags = keep_text(l);
        },
    }
}

/// Index of the first game with id `id`.
pub fn find_game(games: &Vec<Game>, id: &str) -> (r: Option<usize>)
    ensures
        match r {
            Some(i) => i < games@.len() && games@[i as int].id@ == id@ && forall|j: int|
                0 <= j < i ==> games@[j].id@ != id@,
            None => forall|j: int| 0 <= j < games@.len() ==> games@[j].id@ != id@,
        },
{
    let mut i: usize = 0;
    while i < games.len()
        invariant
            i <= games@.len(),
            forall|j: int| 0 <= j < i ==> games@[j].id@ != id@,
        decreases games@.len() - i,
    {
        if str_eq(games[i].id.as_str(), id) {
            return Some(i);
        }
        i = i + 1;
    }
    None
}

/// The games whose id is not `id`, in order.
pub open spec fn without_id(games: Seq<Game>, id: Seq<char>) -> Seq<Game>
    decreases games.len(),
{
    if games.len() == 0 {
        Seq::empty()
    } else {
        let rest = without_id(games.drop_last(), id);
        if games.last().id@ != id {
            rest.push(games.last())
        } else {
            rest
        }
    }
}

/// Removes every game with id `id`; true when one was removed.
pub fn delete_game(games: &mut Vec<Game>, id: &str) -> (r: bool)
    ensures
        final(games)@ == without_id(old(games)@, id@),
        r == exists|j: int| 0 <= j < old(games)@.len() && old(games)@[j].id@ == id@,
{
    let ghost orig = games@;
    let mut kept: Vec<Game> = Vec::new();
    let mut removed = false;
    let mut rest: Vec<Game> = Vec::new();
    std::mem::swap(games, &mut rest);
    let mut taken: Vec<Game> = Vec::new();
    while rest.len() > 0
        invariant
            rest@ + taken@.reverse() == orig,
        decreases rest@.len(),
    {
        let g = rest.pop().unwrap();
        taken.push(g);
        proof {
            assert(rest@ + taken@.reverse() =~= orig);
        }
    }
    assert(taken@.reverse() =~= orig);
    let n = taken.len();
    let mut i: usize = 0;
    while i < n
        invariant
            n == orig.len(),
            taken@.len() + i == n,
            forall|k: int| 0 <= k < taken@.len() ==> taken@[k] == orig[n - 1 - k],
            kept@ == without_id(orig.take(i as int), id@),
            removed == exists|j: int| 0 <= j < i && orig[j].id@ == id@,
        decreases n - i,
    {
        let g = taken.pop().unwrap();
        assert(g == orig[i as int]);
        assert(orig.take(i + 1).drop_last() =~= orig.take(i as int));
        if str_eq(g.id.as_str(), id) {
            removed = true;
        } else {
            kept.push(g);
        }
        i = i + 1;
    }
    assert(orig.take(n as int) =~= orig);
    *games = kept;
    removed
}

/// Marks each game installed exactly when it has an executable and
/// `exe_exists` (one flag per game, in order) says that file is there.
pub fn mark_installed(games: &mut Vec<Game>, exe_exists: &Vec<bool>)
    requires
        exe_exists@.len() == old(games)@.len(),
    ensures
        final(games)@.len() == old(games)@.len(),
        forall|i: int|
            0 <= i < final(games)@.len() ==> {
                let g = #[trigger] final(games)@[i];
                let o = old(games)@[i];
                &&& g.is_installed == Some(o.exe_path is Some && exe_exists@[i])
                &&& g.id == o.id && g.name == o.name && g.exe_path == o.exe_path
                &&& g.save_path == o.save_path && g.playtime_minutes == o.playtime_minutes
                &&& g.session_count == o.session_count
            },
{
    let mut i: usize = 0;
    while i < games.len()
        invariant
            exe_exists@.len() == old(games)@.len(),
            games@.len() == old(games)@.len(),
            i <= games@.len(),
            forall|k: int|
                i <= k < games@.len() ==> #[trigger] games@[k] == old(games)@[k],
            forall|k: int|
                0 <= k < i ==> {
                    let g = #[trigger] games@[k];
                    let o = old(games)@[k];
                    &&& g.is_installed == Some(o.exe_path is Some && exe_exists@[k])
                    &&& g.id == o.id && g.name == o.name && g.exe_path == o.exe_path
                    &&& g.save_path == o.save_path && g.playtime_minutes == o.playtime_minutes
                    &&& g.session_count == o.session_count
                },
        decreases games@.len() - i,
    {
        let installed = games[i].exe_path.is_some() && exe_exists[i];
        games[i].is_installed = Some(installed);
        i = i + 1;
    }
}

/// What loading the library had to do.
#[derive(Debug, Clone, Copy, PartialEq, Eq)]
pub enum LibraryLoad {
    /// The library file was read.
    Primary,
    /// There was no library file; its backup was read.
    RecoveredMissing,
    /// The library file did not parse; its backup was read.
    RecoveredCorrupt,
    /// The library file did not parse and neither did its backup.
    RecoveryFailed,
    /// There is no library yet.
    Empty,
}

/// Chooses what the library holds from what could be read: `primary` is the
/// library file's parse (`None` when it does not parse), `backup` that of its
/// backup copy (`None` when it is missing or does not parse).
pub fn choose_library(primary_exists: bool, primary: Option<Vec<Game>>, backup: Option<Vec<Game>>) -> (r: (
    Vec<Game>,
    LibraryLoad,
))
    ensures
        !primary_exists ==> match backup {
            Some(b) => r.0@ == b@ && r.1 == LibraryLoad::RecoveredMissing,
            None => r.0@.len() == 0 && r.1 == LibraryLoad::Empty,
        },
        primary_exists ==> match primary {
            Some(p) => r.0@ == p@ && r.1 == LibraryLoad::Primary,
            None => match backup {
                Some(b) => r.0@ == b@ && r.1 == LibraryLoad::RecoveredCorrupt,
                None => r.0@.len() == 0 && r.1 == LibraryLoad::RecoveryFailed,
            },
        },
{
    if !primary_exists {
        return match backup {
            Some(b) => (b, LibraryLoad::RecoveredMissing),
            None => (Vec::new(), LibraryLoad::Empty),
        };
    }
    match primary {
        Some(p) => (p, LibraryLoad::Primary),
        None => match backup {
            Some(b) => (b, LibraryLoad::RecoveredCorrupt),
            None => (Vec::new(), LibraryLoad::RecoveryFailed),
        },
    }
}

/// Whole minutes played, rounded up: a session of any length above zero
/// counts at least one minute.
pub open spec fn minutes_played(secs: u64) -> int {
    if secs > 0 {
        (secs + 59) / 60
    } else {
        0
    }
}

/// Whole minutes of a session that lasted `secs` seconds, rounded up.
pub fn session_minutes(secs: u64) -> (r: u64)
    requires
        secs <= u64::MAX - 59,
    ensures
        r == minutes_played(secs),
{
    if secs > 0 {
        (secs + 59) / 60
    } else {
        0
    }
}

/// Counts a finished session on the game: its minutes (as `u32`) are added to
/// the total, the session count goes up by one and `now` becomes the last
/// time played.
pub fn record_play(game: &mut Game, minutes: u64, now: String)
    requires
        old(game).playtime_minutes + (minutes as u32) <= u32::MAX,
        old(game).session_count < u32::MAX,
    ensures
        final(game).playtime_minutes == old(game).playtime_minutes + (minutes as u32),
        final(game).session_count == old(game).session_count + 1,
        final(game).last_played == Some(now),
        final(game).id == old(game).id,
        final(game).name == old(game).name,
        final(game).save_path == old(game).save_path,
        final(game).save_path_source == old(game).save_path_source,
        final(game).backup_count == old(game).backup_count,
        final(game).tags == old(game).tags,
{
    if minutes > 0 {
        let m = minutes as u32;
        game.playtime_minutes = game.playtime_minutes + m;
    } else {
        assert(minutes as u32 == 0);
    }
    game.session_count = game.session_count + 1;
    game.last_played = Some(now);
}

/// Adopts a save folder found by watching a session.
pub fn adopt_detected_save(game: &mut Game, path: String)
    ensures
        final(game).save_path == Some(path),
        opt_chars(final(game).save_path_source) == Some(seq!['a', 'u', 't', 'o']),
        final(game).id == old(game).id,
        final(game).playtime_minutes == old(game).playtime_minutes,
        final(game).session_count == old(game).session_count,
{
    game.save_path = Some(path);
    game.save_path_source = Some(auto_source());
}

/// One finished play session.
#[derive(Debug, Clone)]
pub struct SessionRecord {
    pub game_id: String,
    pub started_at: String,
    pub minutes: u32,
}

/// The record of a session that started at `started` (when the game process
/// was seen) or, failing that, at `now`.
pub fn session_record(game_id: String, started: Option<String>, now: String, minutes: u64) -> (r: SessionRecord)
    ensures
        r.game_id == game_id,
        r.started_at == (match started {
            Some(s) => s,
            None => now,
        }),
        r.minutes == minutes as u32,
{
    let started_at = match started {
        Some(s) => s,
        None => now,
    };
    SessionRecord { game_id, started_at, minutes: minutes as u32 }
}

/// Milliseconds since the epoch of an RFC 3339 date and time, as chrono reads
/// it; `None` when it does not parse.
pub uninterp spec fn rfc3339_millis(s: Seq<char>) -> Option<i64>;

/// `DateTime::parse_from_rfc3339` followed by `timestamp_millis`; the result is
/// named, as the calendar arithmetic behind it takes pages to state.
#[verifier::external_body]
fn parse_rfc3339_millis(s: &str) -> (r: Option<i64>)
    ensures
        r == rfc3339_millis(s@),
{
    chrono::DateTime::parse_from_rfc3339(s).ok().map(|d| d.timestamp_millis())
}

/// Sort key of a session: when it started, or 0 when that does not parse.
pub open spec fn session_key(s: SessionRecord) -> i64 {
    match rfc3339_millis(s.started_at@) {
        Some(m) => m,
        None => 0,
    }
}

/// Most sessions listed at once.
pub const MAX_LISTED_SESSIONS: usize = 5000;

/// The session history, newest first (a stable sort on the start time, so
/// sessions that start together keep their recorded order), cut to the first
/// [`MAX_LISTED_SESSIONS`].
pub fn list_sessions(sessions: Vec<SessionRecord>) -> (r: Vec<SessionRecord>)
    ensures
        exists|order: Seq<usize>|
            #![trigger arranged(sessions@, order)]
            stably_sorted(sessions@.map_values(|s: SessionRecord| session_key(s)), order, true) && r@
                == arranged(sessions@, order).take(
                if sessions@.len() < MAX_LISTED_SESSIONS {
                    sessions@.len() as int
                } else {
                    MAX_LISTED_SESSIONS as int
                },
            ),
{
    let mut keys: Vec<i64> = Vec::new();
    let mut i: usize = 0;
    while i < sessions.len()
        invariant
            i <= sessions@.len(),
            keys@ == sessions@.take(i as int).map_values(|s: SessionRecord| session_key(s)),
        decreases sessions@.len() - i,
    {
        let m = match parse_rfc3339_millis(sessions[i].started_at.as_str()) {
            Some(m) => m,
            None => 0,
        };
        keys.push(m);
        i = i + 1;
        assert(keys@ =~= sessions@.take(i as int).map_values(|s: SessionRecord| session_key(s)));
    }
    assert(sessions@.take(i as int) =~= sessions@);
    let order = stable_order(&keys, true);
    let ghost o = order@;
    let ghost all = sessions@;
    let mut sorted = permute(sessions, &order);
    sorted.truncate(MAX_LISTED_SESSIONS);
    assert(sorted@ =~= arranged(all, o).take(
        if all.len() < MAX_LISTED_SESSIONS {
            all.len() as int
        } else {
            MAX_LISTED_SESSIONS as int
        },
    ));
    sorted
}

/// The save folder a request names: the text trimmed, or none when it is
/// blank or absent.
pub fn save_path_request(path: Option<&str>) -> (r: Option<String>)
    ensures
        match path {
            Some(p) => if trimmed(p@).len() > 0 {
                r matches Some(t) && t@ == trimmed(p@)
            } else {
                r is None
            },
            None => r is None,
        },
{
    match path {
        Some(p) => {
            let t = trim_chars(&str_chars(p));
            if t.len() > 0 {
                Some(string_from_chars(&t))
            } else {
                None
            }
        },
        None => None,
    }
}

/// Accepts a resolved save folder unless it is the root of a drive (it has
/// no name of its own).
pub fn accept_save_folder(canonical: &str) -> (r: Result<String, String>)
    ensures
        path_file_name(canonical@) is None ==> (r matches Err(e) && e@
            == "The root of a drive cannot be used as a save folder"@),
        path_file_name(canonical@) is Some ==> (r matches Ok(p) && p@ == canonical@),
{
    match file_name_of(canonical) {
        Some(_) => Ok(canonical.to_owned()),
        None => Err("The root of a drive cannot be used as a save folder".to_owned()),
    }
}

} // verus!
