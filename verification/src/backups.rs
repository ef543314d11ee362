//! Save backups: how snapshot files are named, listed and validated.
//!
//! A snapshot is a `.zip` named `auto_YYYYMMDD_HHMMSS.zip` (taken when a game
//! exits), `manual_YYYYMMDD_HHMMSS[_Name].zip` (taken on request, the name
//! percent-encoded) or, from older versions, `backup_<stamp>.zip`.
use vstd::prelude::*;
use vstd::utf8::encode_utf8;
use crate::percent::{lemma_url_roundtrip, percent_encode, url_decode, url_decoded, url_encode};
use crate::games::Game;
use crate::sort::{arranged, permute, precedes, reversed, stable_order, stable_text_order, stably_sorted, text_le, text_stably_sorted};
use crate::text::{
    extension_of, file_name_of, opt_chars, path_extension, path_file_name, str_eq,
    chars_end_with, chars_start_with, cvs_view, push_char, split_n, splitn_chars, starts_with,
    ends_with, str_chars, string_from_chars, sub_chars, contains_seq, chars_contain, trim_chars, trimmed,
    lemma_find_char_concat, lemma_split_none,
};

verus! {

/// One snapshot file of a game's backups.
pub struct BackupSnapshot {
    pub name: String,
    pub timestamp: String,
    pub size_bytes: u64,
    pub is_auto: bool,
    pub custom_name: Option<String>,
}

/// `NaiveDateTime::parse_from_str(stamp, "%Y%m%d_%H%M%S")` followed by
/// `format("%Y-%m-%d %H:%M:%S")`: the stamp shown as a date and time, or
/// `None` when it is not a valid date and time.
pub uninterp spec fn chrono_reformat(stamp: Seq<char>) -> Option<Seq<char>>;

/// `chrono::NaiveDateTime::parse_from_str` with the backup stamp format, the
/// parsed value turned back into text by `format`. Calendar rules decide the
/// result; the contract names it.
#[verifier::external_body]
fn reformat_stamp(stamp: &str) -> (r: Option<String>)
    ensures
        match chrono_reformat(stamp@) {
            Some(t) => r matches Some(u) && u@ == t,
            None => r is None,
        },
{
    chrono::NaiveDateTime::parse_from_str(stamp, "%Y%m%d_%H%M%S").ok().map(|dt| dt.format("%Y-%m-%d %H:%M:%S").to_string())
}

/// A file name without its four-character `.zip` extension.
pub open spec fn zip_stem(filename: Seq<char>) -> Seq<char> {
    filename.take(filename.len() - 4)
}

/// The time stamp part of a snapshot name: the second and third `_`-separated
/// parts, or for a legacy `backup_` name (whose only underscore ends that
/// prefix) what follows the prefix, or `Unknown Time`.
pub open spec fn stamp_of(stem: Seq<char>) -> Seq<char> {
    let parts = split_n(stem, '_', 4);
    if parts.len() >= 3 {
        parts[1] + seq!['_'] + parts[2]
    } else if starts_with(stem, "backup_"@) {
        stem.skip(7)
    } else {
        "Unknown Time"@
    }
}

/// The custom name of a manual snapshot: the part after the third `_`,
/// percent-decoded when that succeeds.
pub open spec fn custom_of(stem: Seq<char>, is_auto: bool) -> Option<Seq<char>> {
    let parts = split_n(stem, '_', 4);
    if parts.len() == 4 && !is_auto {
        Some(
            match url_decoded(parts[3]) {
                Some(d) => d,
                None => parts[3],
            },
        )
    } else {
        None
    }
}

/// `o` holds exactly the text `t`.
pub open spec fn text_opt(o: Option<String>, t: Option<Seq<char>>) -> bool {
    match t {
        Some(x) => o matches Some(s) && s@ == x,
        None => o is None,
    }
}

/// The time stamp shown for a snapshot file name.
pub open spec fn shown_stamp(filename: Seq<char>) -> Seq<char> {
    let stamp = stamp_of(zip_stem(filename));
    match chrono_reformat(stamp) {
        Some(t) => t,
        None => stamp,
    }
}

/// The snapshot a file name describes, whatever its size.
pub open spec fn describes_name(snap: BackupSnapshot, filename: Seq<char>) -> bool {
    let is_auto = starts_with(filename, "auto_"@);
    &&& snap.name@ == filename
    &&& snap.timestamp@ == shown_stamp(filename)
    &&& snap.is_auto == is_auto
    &&& text_opt(snap.custom_name, custom_of(zip_stem(filename), is_auto))
}

/// The snapshot a file name describes (size left at zero).
pub open spec fn describes(snap: BackupSnapshot, filename: Seq<char>) -> bool {
    describes_name(snap, filename) && snap.size_bytes == 0
}

fn concat3(a: &Vec<char>, b: char, c: &Vec<char>) -> (r: Vec<char>)
    ensures
        r@ == a@ + seq![b] + c@,
{
    let mut r = a.clone();
    r.push(b);
    let mut i: usize = 0;
    while i < c.len()
        invariant
            i <= c@.len(),
            r@ == a@ + seq![b] + c@.take(i as int),
        decreases c@.len() - i,
    {
        r.push(c[i]);
        i = i + 1;
        assert(r@ =~= a@ + seq![b] + c@.take(i as int));
    }
    assert(c@.take(i as int) =~= c@);
    r
}

/// The stamp and the raw custom-name part of a snapshot file name's stem.
fn stem_parts(stem: &Vec<char>) -> (r: (Vec<char>, Option<Vec<char>>))
    ensures
        r.0@ == stamp_of(stem@),
        match split_n(stem@, '_', 4) {
            parts => if parts.len() == 4 {
                r.1 matches Some(p) && p@ == parts[3]
            } else {
                r.1 is None
            },
        },
{
    let parts = splitn_chars(stem, '_', 4);
    let ghost pv = cvs_view(parts@);
    let stamp = if parts.len() >= 3 {
        assert(pv[1] == parts@[1]@ && pv[2] == parts@[2]@);
        concat3(&parts[1], '_', &parts[2])
    } else {
        let prefix = str_chars("backup_");
        if chars_start_with(stem, &prefix) {
            proof {
                reveal_strlit("backup_");
            }
            sub_chars(stem, 7, stem.len())
        } else {
            let unknown = str_chars("Unknown Time");
            unknown
        }
    };
    let custom = if parts.len() == 4 {
        assert(pv[3] == parts@[3]@);
        Some(parts[3].clone())
    } else {
        None
    };
    (stamp, custom)
}

/// Builds the snapshot for `filename` from the results of the two outside
/// conversions: `reformatted`, the stamp as a date and time, and `decoded`,
/// the percent-decoded custom name.
pub fn snapshot_from(filename: &str, reformatted: Option<String>, decoded: Option<String>) -> (r: Option<
    BackupSnapshot,
>)
    ensures
        !ends_with(filename@, ".zip"@) ==> r is None,
        ends_with(filename@, ".zip"@) ==> (r matches Some(snap) && ({
            let stem = zip_stem(filename@);
            let stamp = stamp_of(stem);
            let parts = split_n(stem, '_', 4);
            let is_auto = starts_with(filename@, "auto_"@);
            &&& snap.name@ == filename@
            &&& snap.timestamp@ == match reformatted {
                Some(t) => t@,
                None => stamp,
            }
            &&& snap.size_bytes == 0
            &&& snap.is_auto == is_auto
            &&& if parts.len() == 4 && !is_auto {
                snap.custom_name matches Some(c) && c@ == match decoded {
                    Some(d) => d@,
                    None => parts[3],
                }
            } else {
                snap.custom_name is None
            }
        })),
{
    let f = str_chars(filename);
    let zip = str_chars(".zip");
    if !chars_end_with(&f, &zip) {
        return None;
    }
    proof {
        reveal_strlit(".zip");
    }
    let auto = str_chars("auto_");
    let is_auto = chars_start_with(&f, &auto);
    let stem = sub_chars(&f, 0, f.len() - 4);
    assert(stem@ =~= zip_stem(filename@));
    let (stamp, raw_custom) = stem_parts(&stem);
    let timestamp = match reformatted {
        Some(t) => t,
        None => string_from_chars(&stamp),
    };
    let custom_name = match raw_custom {
        Some(raw) => if !is_auto {
            match decoded {
                Some(d) => Some(d),
                None => Some(string_from_chars(&raw)),
            }
        } else {
            None
        },
        None => None,
    };
    Some(BackupSnapshot { name: string_from_chars(&f), timestamp, size_bytes: 0, is_auto, custom_name })
}

/// Reads a snapshot file name: `None` unless it ends in `.zip`; otherwise its
/// kind, its time stamp shown as `YYYY-MM-DD HH:MM:SS` when it parses as one,
/// and a manual snapshot's decoded custom name. The size is left at zero for
/// the caller to fill in.
pub fn parse_backup_snapshot(filename: &str) -> (r: Option<BackupSnapshot>)
    ensures
        !ends_with(filename@, ".zip"@) ==> r is None,
        ends_with(filename@, ".zip"@) ==> (r matches Some(snap) && describes(snap, filename@)),
{
    let f = str_chars(filename);
    let zip = str_chars(".zip");
    if !chars_end_with(&f, &zip) {
        return None;
    }
    proof {
        reveal_strlit(".zip");
    }
    let stem = sub_chars(&f, 0, f.len() - 4);
    assert(stem@ =~= zip_stem(filename@));
    let (stamp, raw_custom) = stem_parts(&stem);
    let stamp_text = string_from_chars(&stamp);
    let reformatted = reformat_stamp(stamp_text.as_str());
    let decoded = match raw_custom {
        Some(raw) => {
            let raw_text = string_from_chars(&raw);
            url_decode(raw_text.as_str())
        },
        None => None,
    };
    snapshot_from(filename, reformatted, decoded)
}

/// File name of a manual snapshot taken at `stamp`, with an optional name:
/// `manual_<stamp>.zip`, or `manual_<stamp>_<name>.zip` with the trimmed
/// name percent-encoded when it is not blank.
pub open spec fn manual_backup_name(stamp: Seq<char>, custom: Option<Seq<char>>) -> Seq<char> {
    let tail = match custom {
        Some(n) => if trimmed(n).len() > 0 {
            seq!['_'] + percent_encode(encode_utf8(trimmed(n)))
        } else {
            seq![]
        },
        None => seq![],
    };
    "manual_"@ + stamp + tail + ".zip"@
}

fn append_chars(out: &mut Vec<char>, more: &Vec<char>)
    ensures
        final(out)@ == old(out)@ + more@,
{
    let mut i: usize = 0;
    while i < more.len()
        invariant
            i <= more@.len(),
            out@ == old(out)@ + more@.take(i as int),
        decreases more@.len() - i,
    {
        out.push(more[i]);
        i = i + 1;
        assert(out@ =~= old(out)@ + more@.take(i as int));
    }
    assert(more@.take(i as int) =~= more@);
}

/// The file name for a manual snapshot taken at `stamp`.
pub fn manual_backup_file_name(stamp: &str, custom_name: Option<&str>) -> (r: String)
    ensures
        r@ == manual_backup_name(stamp@, match custom_name {
            Some(n) => Some(n@),
            None => None,
        }),
{
    let mut out = str_chars("manual_");
    append_chars(&mut out, &str_chars(stamp));
    let ghost head = out@;
    match custom_name {
        Some(n) => {
            let t = trim_chars(&str_chars(n));
            if t.len() > 0 {
                let text = string_from_chars(&t);
                let enc = url_encode(text.as_str());
                out.push('_');
                append_chars(&mut out, &str_chars(enc.as_str()));
                assert(out@ =~= head + (seq!['_'] + percent_encode(encode_utf8(trimmed(n@)))));
            } else {
                assert(head + seq![] =~= head);
            }
        },
        None => {
            assert(head + seq![] =~= head);
        },
    }
    append_chars(&mut out, &str_chars(".zip"));
    string_from_chars(&out)
}

/// File name of the snapshot taken automatically when a game exits.
pub fn auto_backup_file_name(stamp: &str) -> (r: String)
    ensures
        r@ == "auto_"@ + stamp@ + ".zip"@,
{
    let mut out = str_chars("auto_");
    append_chars(&mut out, &str_chars(stamp));
    append_chars(&mut out, &str_chars(".zip"));
    string_from_chars(&out)
}

/// No `_` in `s`.
pub open spec fn no_underscore(s: Seq<char>) -> bool {
    forall|k: int| 0 <= k < s.len() ==> s[k] != '_'
}

/// A manual snapshot lists back as taken: its file name is a `.zip`, not an
/// automatic one, its stamp is the stamp it was taken at, and its custom name
/// is the name given (trimmed), or none when that was blank or absent.
pub proof fn lemma_manual_snapshot_lists_back(date: Seq<char>, time: Seq<char>, custom: Option<Seq<char>>)
    requires
        no_underscore(date),
        no_underscore(time),
    ensures
        ({
            let stamp = date + seq!['_'] + time;
            let f = manual_backup_name(stamp, custom);
            let stem = zip_stem(f);
            &&& ends_with(f, ".zip"@)
            &&& !starts_with(f, "auto_"@)
            &&& stamp_of(stem) == stamp
            &&& custom_of(stem, false) == match custom {
                Some(n) => if trimmed(n).len() > 0 {
                    Some(trimmed(n))
                } else {
                    None
                },
                None => None,
            }
        }),
{
    reveal_strlit("manual_");
    reveal_strlit(".zip");
    reveal_strlit("auto_");
    let stamp = date + seq!['_'] + time;
    let named = match custom {
        Some(n) => trimmed(n).len() > 0,
        None => false,
    };
    let enc = if named {
        percent_encode(encode_utf8(trimmed(custom->0)))
    } else {
        seq![]
    };
    let tail = if named {
        seq!['_'] + enc
    } else {
        seq![]
    };
    let f = manual_backup_name(stamp, custom);
    let manual = seq!['m', 'a', 'n', 'u', 'a', 'l'];
    assert("manual_"@ =~= manual + seq!['_']);
    assert(f =~= manual + seq!['_'] + stamp + tail + ".zip"@);
    let stem = zip_stem(f);
    assert(stem =~= manual + seq!['_'] + (date + seq!['_'] + (time + tail)));
    assert(f.skip(f.len() - 4) =~= ".zip"@);
    assert(f[0] == 'm');
    assert(f.take(5) != "auto_"@) by {
        assert(f.take(5)[0] != "auto_"@[0]);
    }
    assert forall|k: int| 0 <= k < manual.len() implies manual[k] != '_' by {}
    lemma_find_char_concat(manual, '_', date + seq!['_'] + (time + tail));
    let r1 = stem.skip(manual.len() + 1int);
    assert(r1 =~= date + seq!['_'] + (time + tail));
    assert(stem.take(manual.len() as int) =~= manual);
    lemma_find_char_concat(date, '_', time + tail);
    let r2 = r1.skip(date.len() + 1int);
    assert(r2 =~= time + tail);
    assert(r1.take(date.len() as int) =~= date);
    if named {
        assert(r2 =~= time + seq!['_'] + enc);
        lemma_find_char_concat(time, '_', enc);
        assert(r2.take(time.len() as int) =~= time);
        assert(r2.skip(time.len() + 1int) =~= enc);
        lemma_url_roundtrip(trimmed(custom->0));
        assert(split_n(enc, '_', 1) == seq![enc]);
        assert(split_n(r2, '_', 2) == seq![time] + split_n(enc, '_', 1));
        assert(split_n(r1, '_', 3) == seq![date] + split_n(r2, '_', 2));
        assert(split_n(stem, '_', 4) == seq![manual] + split_n(r1, '_', 3));
        assert(split_n(stem, '_', 4) =~= seq![manual, date, time, enc]);
    } else {
        assert(r2 =~= time);
        lemma_split_none(time, '_', 2);
        assert(split_n(r1, '_', 3) == seq![date] + split_n(r2, '_', 2));
        assert(split_n(stem, '_', 4) == seq![manual] + split_n(r1, '_', 3));
        assert(split_n(stem, '_', 4) =~= seq![manual, date, time]);
    }
}

/// An automatic snapshot lists back as taken: its file name is a `.zip`
/// marked automatic, its stamp is the stamp it was taken at, and it has no
/// custom name.
pub proof fn lemma_auto_snapshot_lists_back(date: Seq<char>, time: Seq<char>)
    requires
        no_underscore(date),
        no_underscore(time),
    ensures
        ({
            let stamp = date + seq!['_'] + time;
            let f = "auto_"@ + stamp + ".zip"@;
            let stem = zip_stem(f);
            &&& ends_with(f, ".zip"@)
            &&& starts_with(f, "auto_"@)
            &&& stamp_of(stem) == stamp
            &&& custom_of(stem, true) is None
        }),
{
    reveal_strlit(".zip");
    reveal_strlit("auto_");
    let stamp = date + seq!['_'] + time;
    let f = "auto_"@ + stamp + ".zip"@;
    let auto = seq!['a', 'u', 't', 'o'];
    assert("auto_"@ =~= auto + seq!['_']);
    let stem = zip_stem(f);
    assert(stem =~= auto + seq!['_'] + (date + seq!['_'] + time));
    assert(f.skip(f.len() - 4) =~= ".zip"@);
    assert(f.take(5) =~= "auto_"@);
    assert forall|k: int| 0 <= k < auto.len() implies auto[k] != '_' by {}
    lemma_find_char_concat(auto, '_', date + seq!['_'] + time);
    let r1 = stem.skip(auto.len() + 1int);
    assert(r1 =~= date + seq!['_'] + time);
    assert(stem.take(auto.len() as int) =~= auto);
    lemma_find_char_concat(date, '_', time);
    let r2 = r1.skip(date.len() + 1int);
    assert(r2 =~= time);
    assert(r1.take(date.len() as int) =~= date);
    lemma_split_none(time, '_', 2);
    assert(split_n(r1, '_', 3) == seq![date] + split_n(r2, '_', 2));
    assert(split_n(stem, '_', 4) == seq![auto] + split_n(r1, '_', 3));
    assert(split_n(stem, '_', 4) =~= seq![auto, date, time]);
}

/// A file in a game's backup folder, as listing finds it.
pub struct BackupFile {
    pub path: String,
    pub is_file: bool,
    /// When it was last modified, in nanoseconds from the epoch (negative
    /// before it), if that could be read.
    pub modified: Option<i128>,
    /// Its size, if that could be read.
    pub size: Option<u64>,
}

/// A file that counts as a snapshot: a regular file with the extension
/// `zip` (exactly).
pub open spec fn is_zip_file(f: BackupFile) -> bool {
    f.is_file && path_extension(f.path@) == Some("zip"@)
}

/// The file name of `f`, or nothing.
pub open spec fn file_name_text(f: BackupFile) -> Seq<char> {
    match path_file_name(f.path@) {
        Some(n) => n,
        None => Seq::empty(),
    }
}

/// An automatic snapshot whose modification time is known.
pub open spec fn prunable(f: BackupFile) -> bool {
    is_zip_file(f) && starts_with(file_name_text(f), "auto_"@) && f.modified is Some
}

/// The automatic snapshots among `fs`, as indices into `fs`, in order.
pub open spec fn prunable_indices(fs: Seq<BackupFile>) -> Seq<usize>
    decreases fs.len(),
{
    if fs.len() == 0 {
        Seq::empty()
    } else {
        let rest = prunable_indices(fs.drop_last());
        if prunable(fs.last()) {
            rest.push((fs.len() - 1) as usize)
        } else {
            rest
        }
    }
}

fn zip_file(f: &BackupFile) -> (r: bool)
    ensures
        r == is_zip_file(*f),
{
    if !f.is_file {
        return false;
    }
    match extension_of(f.path.as_str()) {
        Some(e) => str_eq(e.as_str(), "zip"),
        None => false,
    }
}

fn name_of(f: &BackupFile) -> (r: String)
    ensures
        r@ == file_name_text(*f),
{
    match file_name_of(f.path.as_str()) {
        Some(n) => n,
        None => String::new(),
    }
}

/// The modification time of each automatic snapshot, in listing order.
pub open spec fn prune_keys(files: Seq<BackupFile>) -> Seq<i128> {
    prunable_indices(files).map_values(|k: usize| files[k as int].modified->0)
}

/// `r` is what pruning `files` down to `max` automatic snapshots selects for
/// deletion: the automatic snapshots sorted oldest first (a stable sort on
/// the modification time), all but the last `max` of them.
pub open spec fn prune_selection(files: Seq<BackupFile>, max: usize, r: Seq<usize>) -> bool {
    let idx = prunable_indices(files);
    exists|order: Seq<usize>|
        #![trigger arranged(idx, order)]
        stably_sorted(prune_keys(files), order, false) && r == (if idx.len() > max {
            arranged(idx, order).take(idx.len() - max)
        } else {
            Seq::empty()
        })
}

proof fn lemma_prunable_indices(files: Seq<BackupFile>)
    requires
        files.len() <= usize::MAX,
    ensures
        forall|t: int|
            0 <= t < prunable_indices(files).len() ==> (#[trigger] prunable_indices(files)[t]) < files.len()
                && prunable(files[prunable_indices(files)[t] as int]),
        forall|j: int|
            0 <= j < files.len() && prunable(#[trigger] files[j]) ==> exists|t: int|
                0 <= t < prunable_indices(files).len() && prunable_indices(files)[t] == j,
    decreases files.len(),
{
    if files.len() > 0 {
        let pre = files.drop_last();
        lemma_prunable_indices(pre);
        let idx = prunable_indices(files);
        let pidx = prunable_indices(pre);
        assert(files.last() == files[files.len() - 1]);
        assert(idx == (if prunable(files.last()) {
            pidx.push((files.len() - 1) as usize)
        } else {
            pidx
        }));
        assert forall|t: int| 0 <= t < idx.len() implies (#[trigger] idx[t]) < files.len() && prunable(
            files[idx[t] as int],
        ) by {
            if t < pidx.len() {
                assert(idx[t] == pidx[t]);
                assert(files[pidx[t] as int] == pre[pidx[t] as int]);
            }
        }
        assert forall|j: int| 0 <= j < files.len() && prunable(#[trigger] files[j]) implies exists|t: int|
            0 <= t < idx.len() && idx[t] == j by {
            if j < files.len() - 1 {
                assert(pre[j] == files[j]);
                let t = choose|t: int| 0 <= t < pidx.len() && pidx[t] == j;
                assert(idx[t] == j);
            } else {
                assert(idx[idx.len() - 1] == j);
            }
        }
    }
}

/// Pruning keeps a rolling history: only automatic snapshots are ever
/// selected, manual ones never; the automatic snapshots left number at most
/// `max` (exactly `max` when there were more); and every one selected is no
/// newer than every automatic snapshot kept.
pub proof fn lemma_prune_keeps_newest(files: Seq<BackupFile>, max: usize, r: Seq<usize>)
    requires
        files.len() <= usize::MAX,
        prune_selection(files, max, r),
    ensures
        forall|k: int| 0 <= k < r.len() ==> (#[trigger] r[k]) < files.len() && prunable(files[r[k] as int]),
        prunable_indices(files).len() - r.len() <= max,
        prunable_indices(files).len() > max ==> prunable_indices(files).len() - r.len() == max,
        forall|k: int, j: int|
            0 <= k < r.len() && 0 <= j < files.len() && prunable(#[trigger] files[j]) && !r.contains(j as usize)
                ==> files[#[trigger] r[k] as int].modified->0 <= files[j].modified->0,
{
    let idx = prunable_indices(files);
    let keys = prune_keys(files);
    let order = choose|order: Seq<usize>|
        #![trigger arranged(prunable_indices(files), order)]
        stably_sorted(prune_keys(files), order, false) && r == (if prunable_indices(files).len() > max {
            arranged(prunable_indices(files), order).take(prunable_indices(files).len() - max)
        } else {
            Seq::empty()
        });
    lemma_prunable_indices(files);
    let a = arranged(idx, order);
    assert forall|k: int| 0 <= k < r.len() implies (#[trigger] r[k]) < files.len() && prunable(files[r[k] as int]) by {
        assert(r[k] == a[k]);
        assert(a[k] == idx[order[k] as int]);
    }
    assert forall|k: int, j: int|
        0 <= k < r.len() && 0 <= j < files.len() && prunable(#[trigger] files[j]) && !r.contains(j as usize)
            implies files[#[trigger] r[k] as int].modified->0 <= files[j].modified->0 by {
        let t = choose|t: int| 0 <= t < idx.len() && idx[t] == j;
        crate::sort::lemma_permutation_covers(order, idx.len(), t);
        let b = choose|b: int| 0 <= b < order.len() && order[b] == t;
        assert(a[b] == j);
        if b < idx.len() - max {
            assert(r[b] == j as usize);
        }
        assert(k < b);
        assert(r[k] == a[k]);
        assert(precedes(keys[order[k] as int], keys[order[b] as int], false));
        assert(keys[order[k] as int] == files[idx[order[k] as int] as int].modified->0);
        assert(keys[order[b] as int] == files[idx[order[b] as int] as int].modified->0);
    }
}

/// Which files to delete so that at most `max_backups` automatic snapshots
/// stay: the oldest ones (by modification time, a stable sort, so files
/// modified together go in listing order). Manual snapshots are never
/// pruned. The result lists indices into `files`.
pub fn backups_to_prune(files: &Vec<BackupFile>, max_backups: usize) -> (r: Vec<usize>)
    ensures
        prune_selection(files@, max_backups, r@),
{
    let mut idx: Vec<usize> = Vec::new();
    let mut keys: Vec<i128> = Vec::new();
    let mut i: usize = 0;
    while i < files.len()
        invariant
            i <= files@.len(),
            idx@ == prunable_indices(files@.take(i as int)),
            keys@ == idx@.map_values(|k: usize| files@[k as int].modified->0),
            forall|t: int| 0 <= t < idx@.len() ==> idx@[t] < i,
        decreases files@.len() - i,
    {
        assert(files@.take(i + 1).drop_last() =~= files@.take(i as int));
        assert(files@.take(i + 1).last() == files@[i as int]);
        let f = &files[i];
        if zip_file(f) {
            let name = name_of(f);
            let auto = str_chars("auto_");
            if chars_start_with(&str_chars(name.as_str()), &auto) {
                match f.modified {
                    Some(m) => {
                        idx.push(i);
                        keys.push(m);
                    },
                    None => {},
                }
            }
        }
        i = i + 1;
        assert(keys@ =~= idx@.map_values(|k: usize| files@[k as int].modified->0));
    }
    assert(files@.take(i as int) =~= files@);
    let order = stable_order(&keys, false);
    let ghost iv = idx@;
    let ghost o = order@;
    let sorted = permute(idx, &order);
    let n = sorted.len();
    let mut r: Vec<usize> = Vec::new();
    if n > max_backups {
        let remove = n - max_backups;
        let mut k: usize = 0;
        while k < remove
            invariant
                remove <= sorted@.len(),
                k <= remove,
                r@ == sorted@.take(k as int),
            decreases remove - k,
        {
            r.push(sorted[k]);
            k = k + 1;
            assert(r@ =~= sorted@.take(k as int));
        }
    }
    proof {
        let w = arranged(iv, o);
        if n <= max_backups {
            assert(r@ =~= Seq::<usize>::empty());
        }
    }
    r
}

/// A file listed as a snapshot: a `.zip` file whose size could be read.
pub open spec fn listable(f: BackupFile) -> bool {
    is_zip_file(f) && f.size is Some && ends_with(file_name_text(f), ".zip"@)
}

/// The files of `fs` listed as snapshots, in order.
pub open spec fn listed_files(fs: Seq<BackupFile>) -> Seq<BackupFile>
    decreases fs.len(),
{
    if fs.len() == 0 {
        Seq::empty()
    } else {
        let rest = listed_files(fs.drop_last());
        if listable(fs.last()) {
            rest.push(fs.last())
        } else {
            rest
        }
    }
}

/// The snapshots listed in a game's backup folder: one for each `.zip` file
/// whose size could be read and whose name parses, with that size, newest
/// shown stamp first (a stable sort on the stamp as text).
pub fn list_snapshots(files: &Vec<BackupFile>) -> (r: Vec<BackupSnapshot>)
    ensures
        ({
            let fs = listed_files(files@);
            exists|order: Seq<usize>|
                #![trigger arranged(fs, order)]
                text_stably_sorted(fs.map_values(|f: BackupFile| shown_stamp(file_name_text(f))), order, true)
                    && r@.len() == order.len() && forall|k: int|
                    0 <= k < r@.len() ==> describes_name(#[trigger] r@[k], file_name_text(arranged(fs, order)[k]))
                        && r@[k].size_bytes == arranged(fs, order)[k].size->0
        }),
{
    let mut snaps: Vec<BackupSnapshot> = Vec::new();
    let mut keys: Vec<Vec<char>> = Vec::new();
    let mut i: usize = 0;
    while i < files.len()
        invariant
            i <= files@.len(),
            snaps@.len() == listed_files(files@.take(i as int)).len(),
            keys@.len() == snaps@.len(),
            forall|k: int|
                0 <= k < snaps@.len() ==> describes_name(
                    #[trigger] snaps@[k],
                    file_name_text(listed_files(files@.take(i as int))[k]),
                ) && snaps@[k].size_bytes == listed_files(files@.take(i as int))[k].size->0,
            forall|k: int| 0 <= k < keys@.len() ==> (#[trigger] keys@[k])@ == snaps@[k].timestamp@,
        decreases files@.len() - i,
    {
        let ghost before = listed_files(files@.take(i as int));
        assert(files@.take(i + 1).drop_last() =~= files@.take(i as int));
        assert(files@.take(i + 1).last() == files@[i as int]);
        let f = &files[i];
        if zip_file(f) {
            match f.size {
                Some(sz) => {
                    let name = name_of(f);
                    match parse_backup_snapshot(name.as_str()) {
                        Some(snap) => {
                            let BackupSnapshot { name, timestamp, size_bytes: _, is_auto, custom_name } = snap;
                            keys.push(str_chars(timestamp.as_str()));
                            snaps.push(BackupSnapshot { name, timestamp, size_bytes: sz, is_auto, custom_name });
                            assert(listed_files(files@.take(i + 1)) == before.push(files@[i as int]));
                        },
                        None => {},
                    }
                },
                None => {},
            }
        }
        i = i + 1;
    }
    assert(files@.take(i as int) =~= files@);
    let ghost fs = listed_files(files@);
    let order = stable_text_order(&keys, true);
    let ghost all = snaps@;
    let ghost o = order@;
    proof {
        assert(keys@.map_values(|k: Vec<char>| k@) =~= fs.map_values(
            |f: BackupFile| shown_stamp(file_name_text(f)),
        ));
    }
    let r = permute(snaps, &order);
    proof {
        let w = arranged(fs, o);
        assert forall|k: int| 0 <= k < r@.len() implies describes_name(
            #[trigger] r@[k],
            file_name_text(arranged(fs, o)[k]),
        ) && r@[k].size_bytes == arranged(fs, o)[k].size->0 by {
            assert(r@[k] == all[o[k] as int]);
        }
    }
    r
}

/// One snapshot in the list of every game's backups.
pub struct BackupSummary {
    pub game_id: String,
    pub game_name: String,
    pub name: String,
    pub timestamp: String,
    pub size_bytes: u64,
    pub is_auto: bool,
    pub custom_name: Option<String>,
}

/// The name shown for the game with id `id`: the first such game's name, or
/// the id itself when no game has it.
pub open spec fn name_for(games: Seq<Game>, id: Seq<char>) -> Seq<char>
    decreases games.len(),
{
    if games.len() == 0 {
        id
    } else if games[0].id@ == id {
        games[0].name@
    } else {
        name_for(games.drop_first(), id)
    }
}

fn game_name_for(games: &Vec<Game>, id: &String) -> (r: String)
    ensures
        r@ == name_for(games@, id@),
{
    let mut i: usize = 0;
    assert(games@.skip(0) =~= games@);
    while i < games.len()
        invariant
            i <= games@.len(),
            name_for(games@, id@) == name_for(games@.skip(i as int), id@),
        decreases games@.len() - i,
    {
        assert(games@.skip(i as int)[0] == games@[i as int]);
        assert(games@.skip(i as int).drop_first() =~= games@.skip(i + 1));
        if str_eq(games[i].id.as_str(), id.as_str()) {
            return games[i].name.clone();
        }
        i = i + 1;
    }
    id.clone()
}

/// Each snapshot of each game's folder with the folder's game id, in order.
pub open spec fn flat_snapshots(groups: Seq<(String, Vec<BackupSnapshot>)>) -> Seq<(Seq<char>, BackupSnapshot)>
    decreases groups.len(),
{
    if groups.len() == 0 {
        Seq::empty()
    } else {
        flat_snapshots(groups.drop_last()) + groups.last().1@.map_values(
            |s: BackupSnapshot| (groups.last().0@, s),
        )
    }
}

/// `s` lists snapshot `snap` of game `id`, named from `games`.
pub open spec fn summarizes(s: BackupSummary, games: Seq<Game>, id: Seq<char>, snap: BackupSnapshot) -> bool {
    &&& s.game_id@ == id
    &&& s.game_name@ == name_for(games, id)
    &&& s.name == snap.name
    &&& s.timestamp == snap.timestamp
    &&& s.size_bytes == snap.size_bytes
    &&& s.is_auto == snap.is_auto
    &&& s.custom_name == snap.custom_name
}

/// Every game's snapshots in one list (`per_game` holds, for each game
/// folder in listing order, its id and its snapshots), each named after its
/// game, newest stamp first with ties kept in order.
pub fn backup_summaries(games: &Vec<Game>, per_game: Vec<(String, Vec<BackupSnapshot>)>) -> (r: Vec<BackupSummary>)
    ensures
        ({
            let flat = flat_snapshots(per_game@);
            exists|order: Seq<usize>|
                #![trigger arranged(flat, order)]
                text_stably_sorted(flat.map_values(|p: (Seq<char>, BackupSnapshot)| p.1.timestamp@), order, true)
                    && r@.len() == order.len() && forall|k: int|
                    0 <= k < r@.len() ==> summarizes(
                        #[trigger] r@[k],
                        games@,
                        arranged(flat, order)[k].0,
                        arranged(flat, order)[k].1,
                    )
        }),
{
    let ghost groups = per_game@;
    let mut todo = reversed(per_game);
    let mut out: Vec<BackupSummary> = Vec::new();
    let mut keys: Vec<Vec<char>> = Vec::new();
    let mut g: usize = 0;
    let n = todo.len();
    while todo.len() > 0
        invariant
            todo@ == groups.reverse().take(todo@.len() as int),
            todo@.len() + g == n,
            n == groups.len(),
            out@.len() == flat_snapshots(groups.take(g as int)).len(),
            keys@.len() == out@.len(),
            forall|k: int|
                0 <= k < out@.len() ==> summarizes(
                    #[trigger] out@[k],
                    games@,
                    flat_snapshots(groups.take(g as int))[k].0,
                    flat_snapshots(groups.take(g as int))[k].1,
                ),
            forall|k: int| 0 <= k < keys@.len() ==> (#[trigger] keys@[k])@ == out@[k].timestamp@,
        decreases todo@.len(),
    {
        let ghost before = flat_snapshots(groups.take(g as int));
        let (id, snaps) = todo.pop().unwrap();
        assert(groups.take(g + 1).drop_last() =~= groups.take(g as int));
        assert(groups.take(g + 1).last() == groups[g as int]);
        assert((id, snaps) == groups[g as int]);
        let ghost part = snaps@.map_values(|s: BackupSnapshot| (id@, s));
        let game_name = game_name_for(games, &id);
        let mut rest = reversed(snaps);
        let m = rest.len();
        let ghost sv = rest@.reverse();
        assert(sv =~= snaps@);
        let mut j: usize = 0;
        while rest.len() > 0
            invariant
                rest@ == sv.reverse().take(rest@.len() as int),
                rest@.len() + j == m,
                m == sv.len(),
                game_name@ == name_for(games@, id@),
                out@.len() == before.len() + j,
                keys@.len() == out@.len(),
                forall|k: int|
                    0 <= k < before.len() ==> summarizes(#[trigger] out@[k], games@, before[k].0, before[k].1),
                forall|k: int|
                    0 <= k < j ==> summarizes(#[trigger] out@[before.len() + k], games@, id@, sv[k]),
                forall|k: int| 0 <= k < keys@.len() ==> (#[trigger] keys@[k])@ == out@[k].timestamp@,
            decreases rest@.len(),
        {
            assert(rest@.last() == sv[j as int]);
            let snap = rest.pop().unwrap();
            assert(rest@ =~= sv.reverse().take(rest@.len() as int));
            let BackupSnapshot { name, timestamp, size_bytes, is_auto, custom_name } = snap;
            keys.push(str_chars(timestamp.as_str()));
            out.push(
                BackupSummary {
                    game_id: id.clone(),
                    game_name: game_name.clone(),
                    name,
                    timestamp,
                    size_bytes,
                    is_auto,
                    custom_name,
                },
            );
            j = j + 1;
        }
        proof {
            let after = flat_snapshots(groups.take(g + 1));
            assert(after == before + part);
            assert forall|k: int| 0 <= k < out@.len() implies summarizes(
                #[trigger] out@[k],
                games@,
                after[k].0,
                after[k].1,
            ) by {
                if k >= before.len() {
                    assert(out@[k] == out@[before.len() + (k - before.len())]);
                }
            }
        }
        g = g + 1;
        assert(todo@ =~= groups.reverse().take(todo@.len() as int));
    }
    assert(groups.take(g as int) =~= groups);
    let ghost flat = flat_snapshots(groups);
    let order = stable_text_order(&keys, true);
    let ghost all = out@;
    let ghost o = order@;
    proof {
        assert(keys@.map_values(|k: Vec<char>| k@) =~= flat.map_values(
            |p: (Seq<char>, BackupSnapshot)| p.1.timestamp@,
        ));
    }
    let r = permute(out, &order);
    proof {
        let w = arranged(flat, o);
        assert forall|k: int| 0 <= k < r@.len() implies summarizes(
            #[trigger] r@[k],
            games@,
            arranged(flat, o)[k].0,
            arranged(flat, o)[k].1,
        ) by {
            assert(r@[k] == all[o[k] as int]);
        }
    }
    r
}

/// Whether a name could reach outside its folder: it holds `/`, `\` or `..`.
pub open spec fn has_traversal(name: Seq<char>) -> bool {
    contains_seq(name, "/"@) || contains_seq(name, "\\"@) || contains_seq(name, ".."@)
}

fn traversal_in(name: &str) -> (r: bool)
    ensures
        r == has_traversal(name@),
{
    crate::commands::str_contains(name, "/") || crate::commands::str_contains(name, "\\")
        || crate::commands::str_contains(name, "..")
}

/// Refuses a snapshot name that could reach outside the game's backups.
pub fn check_backup_name(backup_name: &str) -> (r: Result<(), String>)
    ensures
        has_traversal(backup_name@) ==> (r matches Err(e) && e@
            == "Invalid backup name: path traversal characters detected"@),
        !has_traversal(backup_name@) ==> r is Ok,
{
    if traversal_in(backup_name) {
        return Err("Invalid backup name: path traversal characters detected".to_owned());
    }
    Ok(())
}

/// Refuses a game id that could reach outside the backups folder.
pub fn check_game_id(game_id: &str) -> (r: Result<(), String>)
    ensures
        has_traversal(game_id@) ==> (r matches Err(e) && e@
            == "Invalid game id: path traversal characters detected"@),
        !has_traversal(game_id@) ==> r is Ok,
{
    if traversal_in(game_id) {
        return Err("Invalid game id: path traversal characters detected".to_owned());
    }
    Ok(())
}

} // verus!
