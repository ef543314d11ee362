//! Importing installed games from Steam, Epic, GOG and Heroic: reading their
//! manifests, choosing each game's executable, merging and ordering the
//! result.
use vstd::prelude::*;
use crate::commands::{blacklisted, exe_score, is_blacklisted_exe, score_exe_candidate, SIZE_STEP};
use crate::scan::{or_empty, WalkEntry};
use crate::sort::{arranged, permute, stable_text_order, text_stably_sorted};
use crate::text::{
    chars_end_with, chars_start_with, components_of, contains_seq, cvs_view, ends_with, extension_of,
    file_name_of, file_stem_of, lines, lowercase, opt_chars, path_components, path_extension,
    path_file_name, path_file_stem, path_push, push_path, split_lines, split_n, splitn_chars,
    starts_with, str_chars, str_eq, str_lowercase, string_from_chars, strs_view, sub_chars,
    trim_chars, trimmed,
};
use crate::commands::str_contains;
use crate::vdf::{entries_tree, VdfTree, VdfValue};

verus! {

/// A game found in another launcher's library.
#[derive(Debug, Clone)]
pub struct ImportCandidate {
    pub name: String,
    pub source: String,
    pub app_id: Option<String>,
    pub exe_path: Option<String>,
}

/// `s` with every leading copy of `p` removed (`str::trim_start_matches`).
pub open spec fn trim_prefix_all(s: Seq<char>, p: Seq<char>) -> Seq<char>
    decreases s.len(),
{
    if p.len() > 0 && starts_with(s, p) {
        trim_prefix_all(s.skip(p.len() as int), p)
    } else {
        s
    }
}

/// `s` with every trailing copy of `p` removed (`str::trim_end_matches`).
pub open spec fn trim_suffix_all(s: Seq<char>, p: Seq<char>) -> Seq<char>
    decreases s.len(),
{
    if p.len() > 0 && ends_with(s, p) {
        trim_suffix_all(s.take(s.len() - p.len()), p)
    } else {
        s
    }
}

fn trim_prefix_chars(s: &Vec<char>, p: &Vec<char>) -> (r: Vec<char>)
    ensures
        r@ == trim_prefix_all(s@, p@),
    decreases s@.len(),
{
    if p.len() > 0 && chars_start_with(s, p) {
        let rest = sub_chars(s, p.len(), s.len());
        assert(rest@ =~= s@.skip(p@.len() as int));
        trim_prefix_chars(&rest, p)
    } else {
        sub_chars(s, 0, s.len())
    }
}

fn trim_suffix_chars(s: &Vec<char>, p: &Vec<char>) -> (r: Vec<char>)
    ensures
        r@ == trim_suffix_all(s@, p@),
    decreases s@.len(),
{
    if p.len() > 0 && chars_end_with(s, p) {
        let rest = sub_chars(s, 0, s.len() - p.len());
        assert(rest@ =~= s@.take(s@.len() - p@.len()));
        trim_suffix_chars(&rest, p)
    } else {
        let r = sub_chars(s, 0, s.len());
        assert(r@ =~= s@);
        r
    }
}

/// The app id named by a Steam manifest file `appmanifest_<id>.acf`.
pub open spec fn manifest_id(f: Seq<char>) -> Option<Seq<char>> {
    if starts_with(f, "appmanifest_"@) && ends_with(f, ".acf"@) {
        Some(trim_suffix_all(trim_prefix_all(f, "appmanifest_"@), ".acf"@))
    } else {
        None
    }
}

/// The app id of a Steam manifest file name, when it is one.
pub fn manifest_app_id(file_name: &str) -> (r: Option<String>)
    ensures
        opt_chars(r) == manifest_id(file_name@),
{
    let f = str_chars(file_name);
    let pre = str_chars("appmanifest_");
    let suf = str_chars(".acf");
    if !chars_start_with(&f, &pre) || !chars_end_with(&f, &suf) {
        return None;
    }
    let a = trim_prefix_chars(&f, &pre);
    let b = trim_suffix_chars(&a, &suf);
    Some(string_from_chars(&b))
}

/// What a line of `libraryfolders.vdf` names as a library path, read the
/// simple way: a trimmed line starting with `"` whose second quoted piece is
/// `path`; the path is everything after the third quote.
pub open spec fn path_line(line: Seq<char>) -> Option<Seq<char>> {
    let t = trimmed(line);
    if t.len() > 0 && t[0] == '"' {
        let parts = split_n(t, '"', 4);
        if parts.len() >= 4 && parts[1] == "path"@ {
            Some(parts[3])
        } else {
            None
        }
    } else {
        None
    }
}

/// The library paths named by the lines `ls`, in order.
pub open spec fn paths_in_lines(ls: Seq<Seq<char>>) -> Seq<Seq<char>>
    decreases ls.len(),
{
    if ls.len() == 0 {
        Seq::empty()
    } else {
        let rest = paths_in_lines(ls.drop_last());
        match path_line(ls.last()) {
            Some(p) => rest.push(p),
            None => rest,
        }
    }
}

fn line_parts(line: &Vec<char>) -> (r: Vec<Vec<char>>)
    ensures
        cvs_view(r@) == split_n(trimmed(line@), '"', 4),
{
    let t = trim_chars(line);
    splitn_chars(&t, '"', 4)
}

fn path_of_line(line: &Vec<char>) -> (r: Option<String>)
    ensures
        opt_chars(r) == path_line(line@),
{
    let t = trim_chars(line);
    if t.len() == 0 || t[0] != '"' {
        return None;
    }
    let parts = splitn_chars(&t, '"', 4);
    if parts.len() >= 4 && str_eq(string_from_chars(&parts[1]).as_str(), "path") {
        assert(cvs_view(parts@)[1] == parts@[1]@);
        assert(cvs_view(parts@)[3] == parts@[3]@);
        Some(string_from_chars(&parts[3]))
    } else {
        proof {
            if parts@.len() >= 4 {
                assert(cvs_view(parts@)[1] == parts@[1]@);
            }
        }
        None
    }
}

/// The library paths a `libraryfolders.vdf` names, read line by line.
pub fn library_paths_in(data: &str) -> (r: Vec<String>)
    ensures
        strs_view(r@) == paths_in_lines(lines(data@)),
{
    let d = str_chars(data);
    let ls = split_lines(&d);
    let ghost lv = cvs_view(ls@);
    let mut r: Vec<String> = Vec::new();
    let mut i: usize = 0;
    while i < ls.len()
        invariant
            lv == cvs_view(ls@),
            lv == lines(data@),
            i <= ls@.len(),
            strs_view(r@) == paths_in_lines(lv.take(i as int)),
        decreases ls@.len() - i,
    {
        assert(lv.take(i + 1).drop_last() =~= lv.take(i as int));
        assert(lv[i as int] == ls@[i as int]@);
        match path_of_line(&ls[i]) {
            Some(p) => {
                r.push(p);
            },
            None => {},
        }
        i = i + 1;
        assert(strs_view(r@) =~= paths_in_lines(lv.take(i as int)));
    }
    assert(lv.take(i as int) =~= lv);
    r
}

/// The name and install folder an app manifest sets, read line by line as
/// the last `"name"` and `"installdir"` lines say (everything after the third
/// quote), starting from `name` and an empty folder.
pub open spec fn manifest_scan(ls: Seq<Seq<char>>, name: Seq<char>) -> (Seq<char>, Seq<char>)
    decreases ls.len(),
{
    if ls.len() == 0 {
        (name, Seq::empty())
    } else {
        let (n, d) = manifest_scan(ls.drop_last(), name);
        let parts = split_n(trimmed(ls.last()), '"', 4);
        if parts.len() >= 4 && parts[1] == "name"@ {
            (parts[3], d)
        } else if parts.len() >= 4 && parts[1] == "installdir"@ {
            (n, parts[3])
        } else {
            (n, d)
        }
    }
}

/// The name and install folder of a Steam app manifest (the name defaults to
/// the app id); `None` when either comes out empty.
pub fn manifest_fields(data: &str, app_id: &str) -> (r: Option<(String, String)>)
    ensures
        ({
            let (n, d) = manifest_scan(lines(data@), app_id@);
            if n.len() == 0 || d.len() == 0 {
                r is None
            } else {
                r matches Some(p) && p.0@ == n && p.1@ == d
            }
        }),
{
    let d = str_chars(data);
    let ls = split_lines(&d);
    let ghost lv = cvs_view(ls@);
    let mut name = str_chars(app_id);
    let mut dir: Vec<char> = Vec::new();
    let mut i: usize = 0;
    while i < ls.len()
        invariant
            lv == cvs_view(ls@),
            lv == lines(data@),
            i <= ls@.len(),
            (name@, dir@) == manifest_scan(lv.take(i as int), app_id@),
        decreases ls@.len() - i,
    {
        assert(lv.take(i + 1).drop_last() =~= lv.take(i as int));
        assert(lv[i as int] == ls@[i as int]@);
        let parts = line_parts(&ls[i]);
        let ghost pv = cvs_view(parts@);
        if parts.len() >= 4 {
            assert(pv[1] == parts@[1]@ && pv[3] == parts@[3]@);
            let key = string_from_chars(&parts[1]);
            if str_eq(key.as_str(), "name") {
                name = sub_chars(&parts[3], 0, parts[3].len());
                assert(name@ =~= pv[3]);
            } else if str_eq(key.as_str(), "installdir") {
                dir = sub_chars(&parts[3], 0, parts[3].len());
                assert(dir@ =~= pv[3]);
            }
        }
        i = i + 1;
    }
    assert(lv.take(i as int) =~= lv);
    if name.len() == 0 || dir.len() == 0 {
        return None;
    }
    Some((string_from_chars(&name), string_from_chars(&dir)))
}

/// The value of the first entry keyed `key`.
pub open spec fn tree_get(es: Seq<(Seq<char>, VdfTree)>, key: Seq<char>) -> Option<VdfTree>
    decreases es.len(),
{
    if es.len() == 0 {
        None
    } else if es[0].0 == key {
        Some(es[0].1)
    } else {
        tree_get(es.drop_first(), key)
    }
}

/// The library path an entry of `libraryfolders` gives: the string under
/// `path` in a table.
pub open spec fn folder_path(v: VdfTree) -> Option<Seq<char>> {
    match v {
        VdfTree::Table(entries) => match tree_get(entries, "path"@) {
            Some(VdfTree::Str(p)) => Some(p),
            _ => None,
        },
        VdfTree::Str(_) => None,
    }
}

/// The library paths listed under one top-level table.
pub open spec fn folder_paths(es: Seq<(Seq<char>, VdfTree)>) -> Seq<Seq<char>>
    decreases es.len(),
{
    if es.len() == 0 {
        Seq::empty()
    } else {
        let rest = folder_paths(es.drop_last());
        match folder_path(es.last().1) {
            Some(p) => rest.push(p),
            None => rest,
        }
    }
}

/// The library paths a parsed `libraryfolders.vdf` lists: for each top-level
/// table, each of its tables' `path` strings, in order.
pub open spec fn library_folder_list(root: Seq<(Seq<char>, VdfTree)>) -> Seq<Seq<char>>
    decreases root.len(),
{
    if root.len() == 0 {
        Seq::empty()
    } else {
        let rest = library_folder_list(root.drop_last());
        match root.last().1 {
            VdfTree::Table(indices) => rest + folder_paths(indices),
            VdfTree::Str(_) => rest,
        }
    }
}

proof fn lemma_entries_tree_index(es: Seq<(String, VdfValue)>, i: int)
    requires
        0 <= i < es.len(),
    ensures
        entries_tree(es).len() == es.len(),
        entries_tree(es)[i] == (es[i].0@, es[i].1.tree()),
    decreases es.len(),
{
    if i < es.len() - 1 {
        lemma_entries_tree_index(es.drop_last(), i);
    } else {
        lemma_entries_tree_len(es.drop_last());
    }
}

proof fn lemma_entries_tree_len(es: Seq<(String, VdfValue)>)
    ensures
        entries_tree(es).len() == es.len(),
    decreases es.len(),
{
    if es.len() > 0 {
        lemma_entries_tree_len(es.drop_last());
    }
}

/// The string under `key` in a table, found the way [`tree_get`] finds it.
fn table_str(es: &Vec<(String, VdfValue)>, key: &str) -> (r: Option<String>)
    ensures
        match tree_get(entries_tree(es@), key@) {
            Some(VdfTree::Str(s)) => r matches Some(x) && x@ == s,
            _ => r is None,
        },
{
    let ghost t = entries_tree(es@);
    proof {
        lemma_entries_tree_len(es@);
    }
    let mut i: usize = 0;
    assert(t.skip(0) =~= t);
    while i < es.len()
        invariant
            t == entries_tree(es@),
            t.len() == es@.len(),
            i <= es@.len(),
            tree_get(t, key@) == tree_get(t.skip(i as int), key@),
        decreases es@.len() - i,
    {
        proof {
            lemma_entries_tree_index(es@, i as int);
            assert(t.skip(i as int)[0] == t[i as int]);
            assert(t.skip(i as int).drop_first() =~= t.skip(i + 1));
        }
        if str_eq(es[i].0.as_str(), key) {
            return match &es[i].1 {
                VdfValue::Str(s) => Some(s.clone()),
                VdfValue::Table(_) => None,
            };
        }
        i = i + 1;
    }
    None
}

fn append_folder_paths(out: &mut Vec<String>, indices: &Vec<(String, VdfValue)>)
    ensures
        strs_view(final(out)@) == strs_view(old(out)@) + folder_paths(entries_tree(indices@)),
{
    let ghost t = entries_tree(indices@);
    let ghost start = strs_view(out@);
    proof {
        lemma_entries_tree_len(indices@);
    }
    let mut i: usize = 0;
    assert(start + folder_paths(t.take(0)) =~= start);
    while i < indices.len()
        invariant
            t == entries_tree(indices@),
            t.len() == indices@.len(),
            i <= indices@.len(),
            strs_view(out@) == start + folder_paths(t.take(i as int)),
        decreases indices@.len() - i,
    {
        proof {
            lemma_entries_tree_index(indices@, i as int);
            assert(t.take(i + 1).drop_last() =~= t.take(i as int));
        }
        let ghost before = strs_view(out@);
        assert(t.take(i + 1).last() == t[i as int]);
        match &indices[i].1 {
            VdfValue::Table(entries) => {
                assert(t[i as int].1 == VdfTree::Table(entries_tree(entries@)));
                match table_str(entries, "path") {
                    Some(p) => {
                        out.push(p);
                        assert(strs_view(out@) =~= before.push(p@));
                    },
                    None => {},
                }
            },
            VdfValue::Str(x) => {
                assert(t[i as int].1 == VdfTree::Str(x@));
            },
        }
        i = i + 1;
        assert(strs_view(out@) =~= start + folder_paths(t.take(i as int)));
    }
    assert(t.take(i as int) =~= t);
}

/// The library paths a parsed `libraryfolders.vdf` lists.
pub fn library_folder_paths(root: &Vec<(String, VdfValue)>) -> (r: Vec<String>)
    ensures
        strs_view(r@) == library_folder_list(entries_tree(root@)),
{
    let ghost t = entries_tree(root@);
    proof {
        lemma_entries_tree_len(root@);
    }
    let mut r: Vec<String> = Vec::new();
    let mut i: usize = 0;
    while i < root.len()
        invariant
            t == entries_tree(root@),
            t.len() == root@.len(),
            i <= root@.len(),
            strs_view(r@) == library_folder_list(t.take(i as int)),
        decreases root@.len() - i,
    {
        proof {
            lemma_entries_tree_index(root@, i as int);
            assert(t.take(i + 1).drop_last() =~= t.take(i as int));
        }
        match &root[i].1 {
            VdfValue::Table(indices) => {
                append_folder_paths(&mut r, indices);
            },
            VdfValue::Str(_) => {},
        }
        i = i + 1;
    }
    assert(t.take(i as int) =~= t);
    r
}

/// The app state of a parsed app manifest: its first top-level table.
pub open spec fn first_table(root: Seq<(Seq<char>, VdfTree)>) -> Option<Seq<(Seq<char>, VdfTree)>>
    decreases root.len(),
{
    if root.len() == 0 {
        None
    } else {
        match root[0].1 {
            VdfTree::Table(es) => Some(es),
            VdfTree::Str(_) => first_table(root.drop_first()),
        }
    }
}

/// The string under `key`, when it is one.
pub open spec fn str_under(es: Seq<(Seq<char>, VdfTree)>, key: Seq<char>) -> Option<Seq<char>> {
    match tree_get(es, key) {
        Some(VdfTree::Str(s)) => Some(s),
        _ => None,
    }
}

/// The name (defaulting to `app_id`) and install folder a parsed app
/// manifest gives; `None` when it holds no table.
pub fn manifest_app_state(root: &Vec<(String, VdfValue)>, app_id: &str) -> (r: Option<(String, Option<String>)>)
    ensures
        match first_table(entries_tree(root@)) {
            Some(es) => r matches Some(p) && p.0@ == or_empty(Some(match str_under(es, "name"@) {
                Some(n) => n,
                None => app_id@,
            })) && opt_chars(p.1) == str_under(es, "installdir"@),
            None => r is None,
        },
{
    let ghost t = entries_tree(root@);
    proof {
        lemma_entries_tree_len(root@);
    }
    let mut i: usize = 0;
    assert(t.skip(0) =~= t);
    while i < root.len()
        invariant
            t == entries_tree(root@),
            t.len() == root@.len(),
            i <= root@.len(),
            first_table(t) == first_table(t.skip(i as int)),
        decreases root@.len() - i,
    {
        proof {
            lemma_entries_tree_index(root@, i as int);
            assert(t.skip(i as int)[0] == t[i as int]);
            assert(t.skip(i as int).drop_first() =~= t.skip(i + 1));
        }
        match &root[i].1 {
            VdfValue::Table(es) => {
                let name = match table_str(es, "name") {
                    Some(n) => n,
                    None => app_id.to_owned(),
                };
                let dir = table_str(es, "installdir");
                return Some((name, dir));
            },
            VdfValue::Str(_) => {},
        }
        i = i + 1;
    }
    None
}

/// `c` runs the executable `p`, compared in lowercase.
pub open spec fn same_exe(c: ImportCandidate, p: Seq<char>) -> bool {
    match c.exe_path {
        Some(q) => lowercase(q@) == lowercase(p),
        None => false,
    }
}

/// `o` holds the text `t`.
pub open spec fn holds_text(o: Option<String>, t: Seq<char>) -> bool {
    match o {
        Some(x) => x@ == t,
        None => false,
    }
}

/// Keeps the first candidate for each executable path (compared in
/// lowercase); candidates without an executable are all kept.
pub open spec fn first_per_exe(cs: Seq<ImportCandidate>) -> Seq<ImportCandidate>
    decreases cs.len(),
{
    if cs.len() == 0 {
        Seq::empty()
    } else {
        let rest = first_per_exe(cs.drop_last());
        let c = cs.last();
        match c.exe_path {
            Some(p) => if exists|k: int|
                0 <= k < cs.len() - 1 && same_exe(#[trigger] cs[k], p@) {
                rest
            } else {
                rest.push(c)
            },
            None => rest.push(c),
        }
    }
}

/// The lowercase executable path of a candidate.
pub open spec fn exe_key(c: ImportCandidate) -> Option<Seq<char>> {
    match c.exe_path {
        Some(q) => Some(lowercase(q@)),
        None => None,
    }
}

fn seen_before(keys: &Vec<Option<String>>, j: usize) -> (r: bool)
    requires
        j < keys@.len(),
        keys@[j as int] is Some,
    ensures
        r == exists|k: int| 0 <= k < j && holds_text(#[trigger] keys@[k], keys@[j as int]->0@),
{
    let target = match &keys[j] {
        Some(t) => t,
        None => {
            return false;
        },
    };
    let mut k: usize = 0;
    while k < j
        invariant
            j < keys@.len(),
            keys@[j as int] == Some(*target),
            k <= j,
            forall|u: int| 0 <= u < k ==> !holds_text(#[trigger] keys@[u], target@),
        decreases j - k,
    {
        match &keys[k] {
            Some(x) => {
                if str_eq(x.as_str(), target.as_str()) {
                    return true;
                }
            },
            None => {},
        }
        k = k + 1;
    }
    false
}

/// Two candidates run the same executable (compared in lowercase).
pub open spec fn clash(x: ImportCandidate, y: ImportCandidate) -> bool {
    match x.exe_path {
        Some(p) => same_exe(y, p@),
        None => false,
    }
}

/// After deduplication no two candidates run the same executable (in
/// lowercase), and each one kept is one of the input's.
pub proof fn lemma_first_per_exe_distinct(cs: Seq<ImportCandidate>)
    ensures
        forall|a: int, b: int|
            #![trigger clash(first_per_exe(cs)[a], first_per_exe(cs)[b])]
            0 <= a < b < first_per_exe(cs).len() ==> !clash(first_per_exe(cs)[a], first_per_exe(cs)[b]),
        forall|a: int| 0 <= a < first_per_exe(cs).len() ==> cs.contains(#[trigger] first_per_exe(cs)[a]),
    decreases cs.len(),
{
    if cs.len() > 0 {
        let pre = cs.drop_last();
        lemma_first_per_exe_distinct(pre);
        let rest = first_per_exe(pre);
        let r = first_per_exe(cs);
        let c = cs.last();
        assert forall|a: int| 0 <= a < rest.len() implies cs.contains(#[trigger] rest[a]) by {
            let k = choose|k: int| 0 <= k < pre.len() && pre[k] == rest[a];
            assert(cs[k] == rest[a]);
        }
        if r.len() > rest.len() {
            assert(r == rest.push(c));
            assert(cs.contains(c)) by {
                assert(cs[cs.len() - 1] == c);
            }
            assert forall|a: int, b: int| #![trigger clash(r[a], r[b])] 0 <= a < b < r.len() implies !clash(r[a], r[b]) by {
                if b == r.len() - 1 {
                    assert(r[a] == rest[a]);
                    let k = choose|k: int| 0 <= k < pre.len() && pre[k] == rest[a];
                    assert(cs[k] == rest[a]);
                    match c.exe_path {
                        Some(p) => {
                            assert(!same_exe(cs[k], p@));
                        },
                        None => {},
                    }
                } else {
                    assert(r[a] == rest[a] && r[b] == rest[b]);
                }
            }
            assert forall|a: int| 0 <= a < r.len() implies cs.contains(#[trigger] r[a]) by {
                if a < rest.len() {
                    assert(r[a] == rest[a]);
                }
            }
        } else {
            assert(r == rest);
        }
    }
}

/// Drops each candidate whose executable (in lowercase) an earlier one has.
pub fn dedupe_by_exe(cs: Vec<ImportCandidate>) -> (r: Vec<ImportCandidate>)
    ensures
        r@ == first_per_exe(cs@),
{
    let ghost orig = cs@;
    let n = cs.len();
    let mut keys: Vec<Option<String>> = Vec::new();
    let mut i: usize = 0;
    while i < n
        invariant
            orig == cs@,
            n == cs@.len(),
            i <= n,
            keys@.len() == i,
            forall|k: int| 0 <= k < i ==> opt_chars(#[trigger] keys@[k]) == exe_key(orig[k]),
        decreases n - i,
    {
        let key = match &cs[i].exe_path {
            Some(q) => Some(str_lowercase(q.as_str())),
            None => None,
        };
        keys.push(key);
        i = i + 1;
    }
    let mut rest = cs;
    let mut taken: Vec<ImportCandidate> = Vec::new();
    while rest.len() > 0
        invariant
            rest@ + taken@.reverse() == orig,
        decreases rest@.len(),
    {
        let c = rest.pop().unwrap();
        taken.push(c);
        assert(rest@ + taken@.reverse() =~= orig);
    }
    assert(taken@.reverse() =~= orig);
    let mut kept: Vec<ImportCandidate> = Vec::new();
    let mut j: usize = 0;
    while j < n
        invariant
            n == orig.len(),
            keys@.len() == n,
            forall|k: int| 0 <= k < n ==> opt_chars(#[trigger] keys@[k]) == exe_key(orig[k]),
            taken@.len() + j == n,
            forall|k: int| 0 <= k < taken@.len() ==> taken@[k] == orig[n - 1 - k],
            kept@ == first_per_exe(orig.take(j as int)),
        decreases n - j,
    {
        let c = taken.pop().unwrap();
        assert(c == orig[j as int]);
        let ghost pre = orig.take(j + 1);
        assert(pre.drop_last() =~= orig.take(j as int));
        assert(opt_chars(keys@[j as int]) == exe_key(c));
        let keep = match &c.exe_path {
            Some(_) => {
                let dup = seen_before(&keys, j);
                proof {
                    let p = c.exe_path->0;
                    if dup {
                        let k = choose|k: int| 0 <= k < j && holds_text(#[trigger] keys@[k], keys@[j as int]->0@);
                        assert(opt_chars(keys@[k]) == exe_key(orig[k]));
                        assert(pre[k] == orig[k]);
                        assert(0 <= k < pre.len() - 1 && same_exe(pre[k], p@));
                    } else {
                        assert forall|k: int| 0 <= k < pre.len() - 1 implies !same_exe(#[trigger] pre[k], p@) by {
                            assert(pre[k] == orig[k]);
                            assert(opt_chars(keys@[k]) == exe_key(orig[k]));
                        }
                    }
                }
                !dup
            },
            None => true,
        };
        if keep {
            kept.push(c);
        }
        j = j + 1;
    }
    assert(orig.take(n as int) =~= orig);
    kept
}

/// Sorts candidates by lowercase name, keeping the order of equal names.
pub fn sort_by_name(cs: Vec<ImportCandidate>) -> (r: Vec<ImportCandidate>)
    ensures
        exists|order: Seq<usize>|
            #![trigger arranged(cs@, order)]
            text_stably_sorted(cs@.map_values(|c: ImportCandidate| lowercase(c.name@)), order, false) && r@
                == arranged(cs@, order),
{
    let mut keys: Vec<Vec<char>> = Vec::new();
    let mut i: usize = 0;
    while i < cs.len()
        invariant
            i <= cs@.len(),
            keys@.len() == i,
            forall|k: int| 0 <= k < i ==> (#[trigger] keys@[k])@ == lowercase(cs@[k].name@),
        decreases cs@.len() - i,
    {
        keys.push(str_chars(str_lowercase(cs[i].name.as_str()).as_str()));
        i = i + 1;
    }
    let order = stable_text_order(&keys, false);
    let ghost all = cs@;
    assert(keys@.map_values(|k: Vec<char>| k@) =~= all.map_values(|c: ImportCandidate| lowercase(c.name@)));
    let r = permute(cs, &order);
    let ghost w = arranged(all, order@);
    r
}

/// Two paths are the same path (`PathBuf`'s `==`, component by component).
pub uninterp spec fn same_path(a: Seq<char>, b: Seq<char>) -> bool;

/// `==` on two `PathBuf`s; the contract names the result.
#[verifier::external_body]
pub(crate) fn paths_equal(a: &str, b: &str) -> (r: bool)
    ensures
        r == same_path(a@, b@),
{
    std::path::PathBuf::from(a) == std::path::PathBuf::from(b)
}

/// Adds a library folder unless the same path is already listed.
pub fn add_library_dir(dirs: &mut Vec<String>, dir: String)
    ensures
        (exists|k: int| 0 <= k < old(dirs)@.len() && same_path((#[trigger] old(dirs)@[k])@, dir@)) ==> final(dirs)@
            == old(dirs)@,
        !(exists|k: int| 0 <= k < old(dirs)@.len() && same_path((#[trigger] old(dirs)@[k])@, dir@)) ==> final(dirs)@
            == old(dirs)@.push(dir),
{
    let mut k: usize = 0;
    while k < dirs.len()
        invariant
            dirs@ == old(dirs)@,
            k <= dirs@.len(),
            forall|u: int| 0 <= u < k ==> !same_path((#[trigger] dirs@[u])@, dir@),
        decreases dirs@.len() - k,
    {
        if paths_equal(dirs[k].as_str(), dir.as_str()) {
            return;
        }
        k = k + 1;
    }
    dirs.push(dir);
}

/// Whether an uninstall entry belongs to GOG: its publisher or name mentions
/// `gog`, or it is installed under a `GOG Games` folder (in any case).
pub open spec fn gog_entry(publisher: Option<Seq<char>>, name: Seq<char>, install: Option<Seq<char>>) -> bool {
    ||| (publisher matches Some(p) && contains_seq(lowercase(p), "gog"@))
    ||| contains_seq(lowercase(name), "gog"@)
    ||| (install matches Some(l) && contains_seq(lowercase(l), "gog games"@))
}

/// Whether an uninstall entry belongs to GOG.
pub fn is_gog_entry(publisher: Option<&str>, name: &str, install_location: Option<&str>) -> (r: bool)
    ensures
        r == gog_entry(
            match publisher {
                Some(p) => Some(p@),
                None => None,
            },
            name@,
            match install_location {
                Some(l) => Some(l@),
                None => None,
            },
        ),
{
    let by_publisher = match publisher {
        Some(p) => str_contains(str_lowercase(p).as_str(), "gog"),
        None => false,
    };
    let by_name = str_contains(str_lowercase(name).as_str(), "gog");
    let by_place = match install_location {
        Some(l) => str_contains(str_lowercase(l).as_str(), "gog games"),
        None => false,
    };
    by_publisher || by_name || by_place
}

/// Whether an uninstall entry is imported as a GOG game: its name is not
/// blank and it belongs to GOG.
pub fn gog_registry_entry(publisher: Option<&str>, name: &str, install_location: Option<&str>) -> (r: bool)
    ensures
        r == (trimmed(name@).len() > 0 && gog_entry(
            match publisher {
                Some(p) => Some(p@),
                None => None,
            },
            name@,
            match install_location {
                Some(l) => Some(l@),
                None => None,
            },
        )),
{
    let t = trim_chars(&str_chars(name));
    if t.len() == 0 {
        return false;
    }
    is_gog_entry(publisher, name, install_location)
}

/// The executable an uninstall entry's icon points at: the icon path up to
/// its first comma, when its extension is exactly `exe`.
pub open spec fn icon_exe(icon: Seq<char>) -> Option<Seq<char>> {
    let p = split_n(icon, ',', 2)[0];
    if path_extension(p) == Some("exe"@) {
        Some(p)
    } else {
        None
    }
}

/// The executable an uninstall entry's icon points at, if it is one.
pub fn icon_exe_path(icon: &str) -> (r: Option<String>)
    ensures
        opt_chars(r) == icon_exe(icon@),
{
    let parts = splitn_chars(&str_chars(icon), ',', 2);
    proof {
        reveal_with_fuel(split_n, 2);
        assert(split_n(icon@, ',', 2).len() >= 1);
    }
    assert(cvs_view(parts@)[0] == parts@[0]@);
    let p = string_from_chars(&parts[0]);
    match extension_of(p.as_str()) {
        Some(ext) => {
            if str_eq(ext.as_str(), "exe") {
                Some(p)
            } else {
                None
            }
        },
        None => None,
    }
}

/// Extensions (lowercase) of files that can run a game: `exe` on Windows;
/// elsewhere also scripts and Linux binaries.
pub open spec fn game_ext(ext: Seq<char>, windows: bool) -> bool {
    if windows {
        ext == "exe"@
    } else {
        ||| ext == "exe"@
        ||| ext == "sh"@
        ||| ext == "x86_64"@
        ||| ext == "bin"@
        ||| ext == "AppImage"@
        ||| ext == "appimage"@
    }
}

fn is_game_ext(ext: &str, windows: bool) -> (r: bool)
    ensures
        r == game_ext(ext@, windows),
{
    if windows {
        str_eq(ext, "exe")
    } else {
        str_eq(ext, "exe") || str_eq(ext, "sh") || str_eq(ext, "x86_64") || str_eq(ext, "bin") || str_eq(
            ext,
            "AppImage",
        ) || str_eq(ext, "appimage")
    }
}

/// Smallest Windows executable taken for a game's own.
pub const MIN_GAME_EXE_BYTES: u64 = 500000;

/// The score of a walked file as a game executable for folder `dir_name`,
/// or `None` when it cannot be one.
pub open spec fn game_exe_score(dir_name: Seq<char>, e: WalkEntry, windows: bool) -> Option<int> {
    let p = e.path@;
    if !e.is_file {
        None
    } else if !game_ext(lowercase(or_empty(path_extension(p))), windows) {
        None
    } else if blacklisted(lowercase(or_empty(path_file_name(p)))) {
        None
    } else {
        match e.size {
            None => None,
            Some(sz) => if windows && sz < MIN_GAME_EXE_BYTES {
                None
            } else {
                Some(exe_score(lowercase(or_empty(path_file_stem(p))), dir_name, e.depth, sz))
            },
        }
    }
}

/// Which walked files are candidates: a regular file of known size, not a
/// blacklisted tool, whose extension (lowercased) is `exe`, `sh`, `x86_64`,
/// `bin` or `appimage` off Windows, or `exe` of at least
/// [`MIN_GAME_EXE_BYTES`] on Windows, is scored; no other file is.
pub proof fn lemma_game_exe_candidates(dir_name: Seq<char>, e: WalkEntry, windows: bool)
    ensures
        ({
            let ext = lowercase(or_empty(path_extension(e.path@)));
            let runnable = if windows {
                ext == "exe"@
            } else {
                ext == "exe"@ || ext == "sh"@ || ext == "x86_64"@ || ext == "bin"@ || ext == "appimage"@
                    || ext == "AppImage"@
            };
            let eligible = e.is_file && runnable && !blacklisted(lowercase(or_empty(path_file_name(e.path@))))
                && e.size is Some && !(windows && e.size->0 < MIN_GAME_EXE_BYTES);
            &&& eligible ==> game_exe_score(dir_name, e, windows) == Some(
                exe_score(lowercase(or_empty(path_file_stem(e.path@))), dir_name, e.depth, e.size->0),
            )
            &&& !eligible ==> game_exe_score(dir_name, e, windows) is None
        }),
{
}

/// A walk holding a candidate file always yields an executable: the best
/// one is found whenever any file is scored.
pub proof fn lemma_best_exe_found(dir_name: Seq<char>, es: Seq<WalkEntry>, windows: bool, i: int)
    requires
        0 <= i < es.len(),
        game_exe_score(dir_name, es[i], windows) is Some,
    ensures
        best_exe(dir_name, es, windows) is Some,
    decreases es.len(),
{
    if i < es.len() - 1 {
        lemma_best_exe_found(dir_name, es.drop_last(), windows, i);
        assert(es.drop_last()[i] == es[i]);
    }
}

/// The index of the best game executable among `es`: the highest score,
/// the earliest among equals.
pub open spec fn best_exe(dir_name: Seq<char>, es: Seq<WalkEntry>, windows: bool) -> Option<int>
    decreases es.len(),
{
    if es.len() == 0 {
        None
    } else {
        let prev = best_exe(dir_name, es.drop_last(), windows);
        let last = es.len() - 1;
        match game_exe_score(dir_name, es[last], windows) {
            None => prev,
            Some(s) => match prev {
                None => Some(last),
                Some(b) => if s > game_exe_score(dir_name, es[b], windows)->0 {
                    Some(last)
                } else {
                    prev
                },
            },
        }
    }
}

proof fn lemma_best_exe_scored(dir_name: Seq<char>, es: Seq<WalkEntry>, windows: bool)
    ensures
        best_exe(dir_name, es, windows) matches Some(b) ==> 0 <= b < es.len() && game_exe_score(
            dir_name,
            es[b],
            windows,
        ) is Some,
    decreases es.len(),
{
    if es.len() > 0 {
        lemma_best_exe_scored(dir_name, es.drop_last(), windows);
    }
}

fn game_exe_score_of(dir_name: &str, e: &WalkEntry, windows: bool) -> (r: Option<i32>)
    requires
        crate::scan::scan_entry_ok(*e),
    ensures
        match game_exe_score(dir_name@, *e, windows) {
            Some(s) => r == Some(s as i32) && s == r->0 as int,
            None => r is None,
        },
{
    if !e.is_file {
        return None;
    }
    let ext = match extension_of(e.path.as_str()) {
        Some(x) => x,
        None => String::new(),
    };
    if !is_game_ext(str_lowercase(ext.as_str()).as_str(), windows) {
        return None;
    }
    let name = match file_name_of(e.path.as_str()) {
        Some(x) => x,
        None => String::new(),
    };
    if is_blacklisted_exe(str_lowercase(name.as_str()).as_str()) {
        return None;
    }
    let sz = match e.size {
        Some(sz) => sz,
        None => {
            return None;
        },
    };
    if windows && sz < MIN_GAME_EXE_BYTES {
        return None;
    }
    let stem = match file_stem_of(e.path.as_str()) {
        Some(x) => x,
        None => String::new(),
    };
    let stem_l = str_lowercase(stem.as_str());
    Some(score_exe_candidate(stem_l.as_str(), dir_name, e.depth, sz))
}

/// The best executable to run the game installed in `game_dir`, among the
/// files its walk met (`entries`, in walk order).
pub fn best_game_exe(game_dir: &str, entries: &Vec<WalkEntry>, windows: bool) -> (r: Option<String>)
    requires
        forall|i: int| 0 <= i < entries@.len() ==> crate::scan::scan_entry_ok(#[trigger] entries@[i]),
    ensures
        match best_exe(lowercase(or_empty(path_file_name(game_dir@))), entries@, windows) {
            Some(b) => r matches Some(p) && p@ == entries@[b].path@,
            None => r is None,
        },
{
    let base = match file_name_of(game_dir) {
        Some(x) => x,
        None => String::new(),
    };
    let dir_name = str_lowercase(base.as_str());
    let ghost dn = dir_name@;
    let mut best: Option<(i32, usize)> = None;
    let mut i: usize = 0;
    while i < entries.len()
        invariant
            dn == dir_name@,
            i <= entries@.len(),
            forall|k: int| 0 <= k < entries@.len() ==> crate::scan::scan_entry_ok(#[trigger] entries@[k]),
            match best_exe(dn, entries@.take(i as int), windows) {
                Some(b) => best matches Some(x) && x.1 == b && b < i && game_exe_score(dn, entries@[b], windows)
                    == Some(x.0 as int),
                None => best is None,
            },
        decreases entries@.len() - i,
    {
        let ghost pre = entries@.take(i + 1);
        assert(pre.drop_last() =~= entries@.take(i as int));
        assert(pre[i as int] == entries@[i as int]);
        assert(scan_entry_ok_of(entries@[i as int]));
        proof {
            lemma_best_exe_scored(dn, entries@.take(i as int), windows);
            match best_exe(dn, entries@.take(i as int), windows) {
                Some(b) => {
                    assert(pre[b] == entries@[b]);
                },
                None => {},
            }
        }
        match game_exe_score_of(dir_name.as_str(), &entries[i], windows) {
            Some(s) => {
                match best {
                    Some((bs, _)) => {
                        if s > bs {
                            best = Some((s, i));
                        }
                    },
                    None => {
                        best = Some((s, i));
                    },
                }
            },
            None => {},
        }
        i = i + 1;
    }
    assert(entries@.take(i as int) =~= entries@);
    match best {
        Some((_, b)) => Some(entries[b].path.clone()),
        None => None,
    }
}

spec fn scan_entry_ok_of(e: WalkEntry) -> bool {
    crate::scan::scan_entry_ok(e)
}

/// What is known of an import candidate, as text.
pub struct ImportView {
    pub name: Seq<char>,
    pub source: Seq<char>,
    pub app_id: Option<Seq<char>>,
    pub exe_path: Option<Seq<char>>,
}

impl ImportCandidate {
    pub open spec fn view_of(self) -> ImportView {
        ImportView {
            name: self.name@,
            source: self.source@,
            app_id: opt_chars(self.app_id),
            exe_path: opt_chars(self.exe_path),
        }
    }
}

/// An entry of Heroic's `installed.json`.
pub struct HeroicEntry {
    pub app_name: Option<String>,
    pub title: Option<String>,
    pub install_path: Option<String>,
    pub executable: Option<String>,
}

/// Where to look for a game's executable.
pub enum ExeLookup {
    /// Nowhere: the install folder is unknown.
    Nothing,
    /// This file if it exists, else the best executable in this folder.
    FileOrScan { file: String, dir: String },
    /// The best executable in this folder.
    Scan(String),
}

/// Where to look for the executable of a Heroic entry: its recorded
/// executable inside its install folder, falling back to a scan of that
/// folder; nowhere without an install folder.
pub fn heroic_exe_lookup(install_path: &Option<String>, executable: &Option<String>) -> (r: ExeLookup)
    ensures
        match install_path {
            None => r is Nothing,
            Some(i) => match executable {
                Some(x) => r matches ExeLookup::FileOrScan { file, dir } && file@ == path_push(i@, x@) && dir@
                    == i@,
                None => r matches ExeLookup::Scan(d) && d@ == i@,
            },
        },
{
    match install_path {
        None => ExeLookup::Nothing,
        Some(i) => match executable {
            Some(x) => ExeLookup::FileOrScan { file: push_path(i.as_str(), x.as_str()), dir: i.clone() },
            None => ExeLookup::Scan(i.clone()),
        },
    }
}

/// The candidates of a Heroic library before ordering: each entry with a
/// non-empty title, with the executable found for it.
pub open spec fn heroic_views(source: Seq<char>, es: Seq<HeroicEntry>, exes: Seq<Option<String>>) -> Seq<ImportView>
    decreases es.len(),
{
    if es.len() == 0 || exes.len() < es.len() {
        Seq::empty()
    } else {
        let rest = heroic_views(source, es.drop_last(), exes.take(es.len() - 1));
        let e = es.last();
        let name = or_empty(opt_chars(e.title));
        if name.len() == 0 {
            rest
        } else {
            rest.push(
                ImportView {
                    name,
                    source,
                    app_id: opt_chars(e.app_name),
                    exe_path: opt_chars(exes[es.len() - 1]),
                },
            )
        }
    }
}

/// The candidates of a Heroic library (`entries`, with the executable found
/// for each in `exes`), tagged `source` and sorted by name.
pub fn heroic_library(source: &str, entries: &Vec<HeroicEntry>, exes: &Vec<Option<String>>) -> (r: Vec<ImportCandidate>)
    requires
        exes@.len() == entries@.len(),
    ensures
        exists|order: Seq<usize>|
            #![trigger arranged(heroic_views(source@, entries@, exes@), order)]
            text_stably_sorted(
                heroic_views(source@, entries@, exes@).map_values(|c: ImportView| lowercase(c.name)),
                order,
                false,
            ) && r@.map_values(|c: ImportCandidate| c.view_of()) == arranged(
                heroic_views(source@, entries@, exes@),
                order,
            ),
{
    let mut cs: Vec<ImportCandidate> = Vec::new();
    let mut i: usize = 0;
    while i < entries.len()
        invariant
            exes@.len() == entries@.len(),
            i <= entries@.len(),
            cs@.map_values(|c: ImportCandidate| c.view_of()) == heroic_views(
                source@,
                entries@.take(i as int),
                exes@.take(i as int),
            ),
        decreases entries@.len() - i,
    {
        assert(entries@.take(i + 1).drop_last() =~= entries@.take(i as int));
        assert(exes@.take(i + 1).take(i as int) =~= exes@.take(i as int));
        let e = &entries[i];
        let name = match &e.title {
            Some(t) => t.clone(),
            None => String::new(),
        };
        if str_chars(name.as_str()).len() > 0 {
            cs.push(
                ImportCandidate {
                    name,
                    source: source.to_owned(),
                    app_id: e.app_name.clone(),
                    exe_path: exes[i].clone(),
                },
            );
        }
        i = i + 1;
        assert(cs@.map_values(|c: ImportCandidate| c.view_of()) =~= heroic_views(
            source@,
            entries@.take(i as int),
            exes@.take(i as int),
        ));
    }
    assert(entries@.take(i as int) =~= entries@);
    assert(exes@.take(i as int) =~= exes@);
    let ghost views = cs@.map_values(|c: ImportCandidate| c.view_of());
    let ghost all = cs@;
    let r = sort_by_name(cs);
    proof {
        let order = choose|order: Seq<usize>|
            text_stably_sorted(all.map_values(|c: ImportCandidate| lowercase(c.name@)), order, false) && r@
                == arranged(all, order);
        assert(all.map_values(|c: ImportCandidate| lowercase(c.name@)) =~= views.map_values(
            |c: ImportView| lowercase(c.name),
        ));
        assert(r@.map_values(|c: ImportCandidate| c.view_of()) =~= arranged(views, order));
    }
    r
}

/// Epic games installed through Heroic.
pub fn heroic_epic_library(entries: &Vec<HeroicEntry>, exes: &Vec<Option<String>>) -> (r: Vec<ImportCandidate>)
    requires
        exes@.len() == entries@.len(),
    ensures
        exists|order: Seq<usize>|
            #![trigger arranged(heroic_views("Epic"@, entries@, exes@), order)]
            text_stably_sorted(
                heroic_views("Epic"@, entries@, exes@).map_values(|c: ImportView| lowercase(c.name)),
                order,
                false,
            ) && r@.map_values(|c: ImportCandidate| c.view_of()) == arranged(
                heroic_views("Epic"@, entries@, exes@),
                order,
            ),
{
    heroic_library("Epic", entries, exes)
}

/// GOG games installed through Heroic.
pub fn heroic_gog_library(entries: &Vec<HeroicEntry>, exes: &Vec<Option<String>>) -> (r: Vec<ImportCandidate>)
    requires
        exes@.len() == entries@.len(),
    ensures
        exists|order: Seq<usize>|
            #![trigger arranged(heroic_views("GOG"@, entries@, exes@), order)]
            text_stably_sorted(
                heroic_views("GOG"@, entries@, exes@).map_values(|c: ImportView| lowercase(c.name)),
                order,
                false,
            ) && r@.map_values(|c: ImportCandidate| c.view_of()) == arranged(
                heroic_views("GOG"@, entries@, exes@),
                order,
            ),
{
    heroic_library("GOG", entries, exes)
}

/// The files to try, in order, for an Epic game's executable: its launch
/// executable, then its main game executable, each inside its install folder.
pub fn epic_exe_probes(install: &Option<String>, launch: &Option<String>, main: &Option<String>) -> (r: Vec<
    String,
>)
    ensures
        strs_view(r@) == (match install {
            Some(i) => (match launch {
                Some(l) => seq![path_push(i@, l@)],
                None => Seq::empty(),
            }) + (match main {
                Some(m) => seq![path_push(i@, m@)],
                None => Seq::empty(),
            }),
            None => Seq::empty(),
        }),
{
    let mut r: Vec<String> = Vec::new();
    match install {
        Some(i) => {
            match launch {
                Some(l) => {
                    r.push(push_path(i.as_str(), l.as_str()));
                },
                None => {},
            }
            let ghost first = strs_view(r@);
            match main {
                Some(m) => {
                    r.push(push_path(i.as_str(), m.as_str()));
                    assert(strs_view(r@) =~= first + seq![path_push(i@, m@)]);
                },
                None => {
                    assert(strs_view(r@) =~= first + Seq::<Seq<char>>::empty());
                },
            }
        },
        None => {},
    }
    assert(strs_view(r@) =~= (match install {
        Some(i) => (match launch {
            Some(l) => seq![path_push(i@, l@)],
            None => Seq::empty(),
        }) + (match main {
            Some(m) => seq![path_push(i@, m@)],
            None => Seq::empty(),
        }),
        None => Seq::empty(),
    }));
    r
}

/// The candidate an Epic manifest gives: none without a display name or
/// with a blank one.
pub fn epic_entry(display_name: Option<String>, app_name: Option<String>, exe_path: Option<String>) -> (r: Option<
    ImportCandidate,
>)
    ensures
        match display_name {
            Some(n) => if trimmed(n@).len() == 0 {
                r is None
            } else {
                r matches Some(c) && c.view_of() == (ImportView {
                    name: n@,
                    source: "Epic"@,
                    app_id: opt_chars(app_name),
                    exe_path: opt_chars(exe_path),
                })
            },
            None => r is None,
        },
{
    match display_name {
        Some(n) => {
            let t = trim_chars(&str_chars(n.as_str()));
            if t.len() == 0 {
                None
            } else {
                Some(ImportCandidate { name: n, source: "Epic".to_owned(), app_id: app_name, exe_path })
            }
        },
        None => None,
    }
}

} // verus!
