//! Snapshot archives: how folders are named inside them, which entries are
//! safe to extract and where each lands, and what a library backup leaves
//! out.
use vstd::prelude::*;
use crate::text::{
    ends_with, lowercase, opt_chars, parent_of, parts_of, path_extension, path_file_name, path_parent,
    path_parts, path_push, push_path, str_chars, str_eq, str_lowercase, string_from_chars, strs_view,
    extension_of, file_name_of, PartKind,
};

verus! {

/// `s` with every backslash turned into a forward slash.
pub open spec fn slashes(s: Seq<char>) -> Seq<char> {
    s.map_values(|c: char| if c == '\\' { '/' } else { c })
}

/// `s` with every backslash turned into a forward slash.
pub fn to_slashes(s: &str) -> (r: String)
    ensures
        r@ == slashes(s@),
{
    let cs = str_chars(s);
    let mut out: Vec<char> = Vec::new();
    let mut i: usize = 0;
    while i < cs.len()
        invariant
            i <= cs@.len(),
            cs@ == s@,
            out@ == slashes(s@).take(i as int),
        decreases cs@.len() - i,
    {
        let c = cs[i];
        out.push(if c == '\\' { '/' } else { c });
        i = i + 1;
        assert(out@ =~= slashes(s@).take(i as int));
    }
    assert(slashes(s@).take(i as int) =~= slashes(s@));
    string_from_chars(&out)
}

/// The name an archive gives a file or folder at `rel` (relative to the
/// archived folder): the relative path with forward slashes; the folder
/// itself (an empty `rel`) gets no entry of its own.
pub fn zip_entry(rel: &str, is_file: bool) -> (r: Option<String>)
    ensures
        (is_file || rel@.len() > 0) ==> (r matches Some(n) && n@ == slashes(rel@)),
        (!is_file && rel@.len() == 0) ==> r is None,
{
    let n = to_slashes(rel);
    if is_file || str_chars(rel).len() > 0 {
        Some(n)
    } else {
        None
    }
}

/// The name a saved file at `rel` below save folder `root_name` gets in a
/// save archive: `root_name/rel`, with forward slashes.
pub fn save_entry_name(root_name: &str, rel: &str) -> (r: String)
    ensures
        r@ == root_name@ + seq!['/'] + slashes(rel@),
{
    let tail = to_slashes(rel);
    let head = root_name.to_owned().concat("/");
    proof {
        reveal_strlit("/");
    }
    head.concat(tail.as_str())
}

/// Whether a file belongs in a library backup: archives kept in the
/// `backups` or `saves` folders (first folder compared in lowercase) are left
/// out, so backups do not nest.
pub open spec fn left_out_of_library(rel: Seq<char>) -> bool {
    let parts = path_parts(rel);
    parts.len() > 0 && (lowercase(parts[0].1) == "backups"@ || lowercase(parts[0].1) == "saves"@)
        && path_extension(rel) == Some("zip"@)
}

/// Whether a file at `rel` below the data folder is left out of a library
/// backup.
pub fn excluded_from_library_backup(rel: &str) -> (r: bool)
    ensures
        r == left_out_of_library(rel@),
{
    let parts = parts_of(rel);
    if parts.len() == 0 {
        return false;
    }
    let first = str_lowercase(parts[0].1.as_str());
    if !(str_eq(first.as_str(), "backups") || str_eq(first.as_str(), "saves")) {
        return false;
    }
    match extension_of(rel) {
        Some(e) => str_eq(e.as_str(), "zip"),
        None => false,
    }
}

/// Whether a path is absolute on this platform (`Path::is_absolute`).
pub uninterp spec fn path_absolute(p: Seq<char>) -> bool;

/// `Path::is_absolute`; the contract names the result.
#[verifier::external_body]
fn is_absolute_path(p: &str) -> (r: bool)
    ensures
        r == path_absolute(p@),
{
    std::path::Path::new(p).is_absolute()
}

/// A component that would take an extracted file outside its destination.
pub open spec fn escaping(k: PartKind) -> bool {
    k == PartKind::Parent || k == PartKind::Root || k == PartKind::Prefix
}

/// Whether an archive entry's name (backslashes read as slashes) could land
/// outside the destination: empty, absolute, or with a `..`, root or drive
/// component.
pub open spec fn unsafe_entry(raw: Seq<char>) -> bool {
    let n = slashes(raw);
    ||| n.len() == 0
    ||| path_absolute(n)
    ||| exists|i: int| 0 <= i < path_parts(n).len() && escaping(#[trigger] path_parts(n)[i].0)
}

/// Whether an archive entry's name could land outside the destination.
pub fn is_unsafe_entry(raw: &str) -> (r: bool)
    ensures
        r == unsafe_entry(raw@),
{
    let n = to_slashes(raw);
    if str_chars(n.as_str()).len() == 0 {
        return true;
    }
    if is_absolute_path(n.as_str()) {
        return true;
    }
    let parts = parts_of(n.as_str());
    let mut i: usize = 0;
    while i < parts.len()
        invariant
            n@ == slashes(raw@),
            n@.len() > 0,
            !path_absolute(n@),
            i <= parts@.len(),
            parts@.len() == path_parts(n@).len(),
            forall|k: int| 0 <= k < parts@.len() ==> (#[trigger] parts@[k]).0 == path_parts(n@)[k].0,
            forall|k: int| 0 <= k < i ==> !escaping(#[trigger] path_parts(n@)[k].0),
        decreases parts@.len() - i,
    {
        let k = parts[i].0;
        if k == PartKind::Parent || k == PartKind::Root || k == PartKind::Prefix {
            assert(escaping(path_parts(n@)[i as int].0));
            return true;
        }
        i = i + 1;
    }
    false
}

/// The folder an entry sits in at the top of the archive, if its first
/// component is a plain name and it is not itself a file at the top.
pub open spec fn entry_top(raw: Seq<char>) -> Option<Seq<char>> {
    let n = slashes(raw);
    let parts = path_parts(n);
    if parts.len() == 0 || parts[0].0 != PartKind::Normal {
        None
    } else if parts.len() == 1 && !ends_with(n, "/"@) {
        None
    } else {
        Some(parts[0].1)
    }
}

/// The top folder of an archive entry that could be read.
pub open spec fn first_top(e: Result<String, String>) -> Option<Seq<char>> {
    match e {
        Ok(n) => entry_top(n@),
        Err(_) => None,
    }
}

/// Entry `e` could be read and sits in top folder `t`.
pub open spec fn under_top(e: Result<String, String>, t: Option<Seq<char>>) -> bool {
    first_top(e) is Some && first_top(e) == t
}

/// The one folder every entry of an archive sits in, if there is one: no
/// entry may be unreadable, a file at the top, or in another folder.
pub open spec fn common_root(es: Seq<Result<String, String>>) -> Option<Seq<char>> {
    if es.len() > 0 && forall|i: int| 0 <= i < es.len() ==> under_top(#[trigger] es[i], first_top(es[0])) {
        first_top(es[0])
    } else {
        None
    }
}

fn top_of(raw: &str) -> (r: Option<String>)
    ensures
        opt_chars(r) == entry_top(raw@),
{
    let n = to_slashes(raw);
    let parts = parts_of(n.as_str());
    if parts.len() == 0 || parts[0].0 != PartKind::Normal {
        return None;
    }
    let slash = str_chars("/");
    proof {
        reveal_strlit("/");
    }
    if parts.len() == 1 && !crate::text::chars_end_with(&str_chars(n.as_str()), &slash) {
        return None;
    }
    Some(parts[0].1.clone())
}

/// The folder that wraps a whole archive, if any.
pub fn find_common_root(entries: &Vec<Result<String, String>>) -> (r: Option<String>)
    ensures
        opt_chars(r) == common_root(entries@),
{
    if entries.len() == 0 {
        return None;
    }
    let first = match &entries[0] {
        Ok(n) => match top_of(n.as_str()) {
            Some(t) => t,
            None => {
                assert(!under_top(entries@[0], first_top(entries@[0])));
                return None;
            },
        },
        Err(_) => {
            assert(!under_top(entries@[0], first_top(entries@[0])));
            return None;
        },
    };
    let ghost top0 = first_top(entries@[0]);
    let mut i: usize = 0;
    while i < entries.len()
        invariant
            i <= entries@.len(),
            entries@.len() > 0,
            top0 == first_top(entries@[0]),
            top0 == Some(first@),
            forall|k: int| 0 <= k < i ==> under_top(#[trigger] entries@[k], top0),
        decreases entries@.len() - i,
    {
        match &entries[i] {
            Ok(n) => match top_of(n.as_str()) {
                Some(t) => {
                    if !str_eq(t.as_str(), first.as_str()) {
                        assert(!under_top(entries@[i as int], top0));
                        return None;
                    }
                },
                None => {
                    assert(!under_top(entries@[i as int], top0));
                    return None;
                },
            },
            Err(_) => {
                assert(!under_top(entries@[i as int], top0));
                return None;
            },
        }
        i = i + 1;
    }
    Some(first)
}

/// One entry to extract: its index in the archive, where it lands (the
/// components below the destination) and whether it is a folder.
pub struct Extraction {
    pub index: usize,
    pub parts: Vec<String>,
    pub is_dir: bool,
}

/// What becomes of one entry when extracting.
pub enum EntryPlan {
    /// Extraction stops with this error.
    Fail(Seq<char>),
    /// Nothing to extract (the wrapping folder itself).
    Skip,
    /// Extract it to these components below the destination; `true` for a
    /// folder.
    Put(Seq<Seq<char>>, bool),
}

/// The components of an entry below the destination: without the wrapping
/// folder `root` when it starts with it.
pub open spec fn landing(root: Option<Seq<char>>, n: Seq<char>) -> Seq<Seq<char>> {
    let texts = path_parts(n).map_values(|x: (PartKind, Seq<char>)| x.1);
    match root {
        Some(r) => if path_parts(n).len() > 0 && path_parts(n)[0] == (PartKind::Normal, r) {
            texts.skip(1)
        } else {
            texts
        },
        None => texts,
    }
}

/// What becomes of entry `e` when the archive's wrapping folder is `root`.
pub open spec fn entry_plan(root: Option<Seq<char>>, e: Result<String, String>) -> EntryPlan {
    match e {
        Err(msg) => EntryPlan::Fail(msg@),
        Ok(raw) => if unsafe_entry(raw@) {
            EntryPlan::Fail("Backup contains an unsafe path: "@ + raw@)
        } else {
            let n = slashes(raw@);
            let l = landing(root, n);
            if l.len() == 0 {
                EntryPlan::Skip
            } else {
                EntryPlan::Put(l, ends_with(n, "/"@))
            }
        },
    }
}

/// The extractions of entries `es` (those of `es.take(k)` in order), up to
/// the first failing entry, and that failure.
pub open spec fn plan_upto(root: Option<Seq<char>>, es: Seq<Result<String, String>>, k: nat) -> (Seq<(int, Seq<Seq<char>>, bool)>, Option<Seq<char>>)
    decreases k,
{
    if k == 0 {
        (Seq::empty(), None)
    } else {
        let (done, failed) = plan_upto(root, es, (k - 1) as nat);
        if failed is Some {
            (done, failed)
        } else {
            match entry_plan(root, es[k - 1]) {
                EntryPlan::Fail(m) => (done, Some(m)),
                EntryPlan::Skip => (done, None),
                EntryPlan::Put(l, d) => (done.push((k - 1, l, d)), None),
            }
        }
    }
}

/// How to extract an archive with entries `entries`: the extractions to make,
/// in order, and the error that stops extraction after them, if any. The
/// wrapping folder, when every entry sits in one, is dropped from where
/// entries land.
pub fn extraction_plan(entries: &Vec<Result<String, String>>) -> (r: (Vec<Extraction>, Option<String>))
    ensures
        ({
            let (done, failed) = plan_upto(common_root(entries@), entries@, entries@.len());
            &&& r.0@.len() == done.len()
            &&& forall|k: int|
                0 <= k < done.len() ==> (#[trigger] r.0@[k]).index == done[k].0 && strs_view(r.0@[k].parts@)
                    == done[k].1 && r.0@[k].is_dir == done[k].2
            &&& opt_chars(r.1) == failed
        }),
{
    let root = find_common_root(entries);
    let ghost rv = opt_chars(root);
    let mut out: Vec<Extraction> = Vec::new();
    let mut i: usize = 0;
    while i < entries.len()
        invariant
            rv == opt_chars(root),
            rv == common_root(entries@),
            i <= entries@.len(),
            plan_upto(rv, entries@, i as nat).1 is None,
            out@.len() == plan_upto(rv, entries@, i as nat).0.len(),
            forall|k: int|
                0 <= k < out@.len() ==> (#[trigger] out@[k]).index == plan_upto(rv, entries@, i as nat).0[k].0
                    && strs_view(out@[k].parts@) == plan_upto(rv, entries@, i as nat).0[k].1 && out@[k].is_dir
                    == plan_upto(rv, entries@, i as nat).0[k].2,
        decreases entries@.len() - i,
    {
        let ghost before = plan_upto(rv, entries@, i as nat).0;
        let raw = match &entries[i] {
            Ok(n) => n,
            Err(e) => {
                let msg = e.clone();
                proof {
                    lemma_plan_stops(rv, entries@, (i + 1) as nat, entries@.len());
                }
                return (out, Some(msg));
            },
        };
        if is_unsafe_entry(raw.as_str()) {
            let msg = "Backup contains an unsafe path: ".to_owned().concat(raw.as_str());
            proof {
                lemma_plan_stops(rv, entries@, (i + 1) as nat, entries@.len());
            }
            return (out, Some(msg));
        }
        let n = to_slashes(raw.as_str());
        let parts = parts_of(n.as_str());
        let skip_first = match &root {
            Some(r) => parts.len() > 0 && parts[0].0 == PartKind::Normal && str_eq(parts[0].1.as_str(), r.as_str()),
            None => false,
        };
        let start: usize = if skip_first {
            1
        } else {
            0
        };
        let ghost texts = path_parts(n@).map_values(|x: (PartKind, Seq<char>)| x.1);
        proof {
            if skip_first {
                assert(path_parts(n@)[0] == (PartKind::Normal, rv->0));
            } else {
                match rv {
                    Some(r) => {
                        if path_parts(n@).len() > 0 && path_parts(n@)[0] == (PartKind::Normal, r) {
                            assert(parts@[0].0 == PartKind::Normal && parts@[0].1@ == r);
                        }
                    },
                    None => {},
                }
            }
        }
        let mut land: Vec<String> = Vec::new();
        let mut j = start;
        while j < parts.len()
            invariant
                start <= j <= parts@.len(),
                start <= 1,
                parts@.len() == path_parts(n@).len(),
                forall|k: int| 0 <= k < parts@.len() ==> (#[trigger] parts@[k]).1@ == path_parts(n@)[k].1,
                texts == path_parts(n@).map_values(|x: (PartKind, Seq<char>)| x.1),
                strs_view(land@) == texts.subrange(start as int, j as int),
            decreases parts@.len() - j,
        {
            let ghost before = strs_view(land@);
            land.push(parts[j].1.clone());
            assert(texts[j as int] == path_parts(n@)[j as int].1);
            assert(strs_view(land@) =~= before.push(texts[j as int]));
            j = j + 1;
            assert(strs_view(land@) =~= texts.subrange(start as int, j as int));
        }
        assert(texts.subrange(start as int, j as int) =~= landing(rv, n@));
        let slash = str_chars("/");
        proof {
            reveal_strlit("/");
        }
        let is_dir = crate::text::chars_end_with(&str_chars(n.as_str()), &slash);
        if land.len() > 0 {
            out.push(Extraction { index: i, parts: land, is_dir });
            assert(plan_upto(rv, entries@, (i + 1) as nat).0 == before.push((i as int, landing(rv, n@), is_dir)));
        }
        i = i + 1;
    }
    (out, None)
}

/// Once extraction has failed, later entries change nothing.
proof fn lemma_plan_stops(root: Option<Seq<char>>, es: Seq<Result<String, String>>, k: nat, n: nat)
    requires
        k <= n,
        plan_upto(root, es, k).1 is Some,
    ensures
        plan_upto(root, es, n) == plan_upto(root, es, k),
    decreases n - k,
{
    if k < n {
        lemma_plan_stops(root, es, k, (n - 1) as nat);
    }
}

/// Entry `e` is a readable, safe entry that lands at `l`, below the
/// destination.
pub open spec fn lands_safely(root: Option<Seq<char>>, e: Result<String, String>, l: Seq<Seq<char>>) -> bool {
    match e {
        Ok(raw) => !unsafe_entry(raw@) && l == landing(root, slashes(raw@)) && l.len() > 0,
        Err(_) => false,
    }
}

/// Extraction never writes outside its destination: every extraction the
/// plan lists comes from an entry that could be read, whose name (backslashes
/// read as slashes) is neither empty nor absolute and has no `..`, root or
/// drive component; it lands at that name's components below the
/// destination (less the wrapping folder), never at the destination itself.
pub proof fn lemma_plan_stays_inside(root: Option<Seq<char>>, es: Seq<Result<String, String>>, k: nat)
    requires
        k <= es.len(),
    ensures
        forall|t: int|
            0 <= t < plan_upto(root, es, k).0.len() ==> {
                let x = #[trigger] plan_upto(root, es, k).0[t];
                &&& 0 <= x.0 < k
                &&& lands_safely(root, es[x.0], x.1)
            },
    decreases k,
{
    if k > 0 {
        lemma_plan_stays_inside(root, es, (k - 1) as nat);
        let (done, failed) = plan_upto(root, es, (k - 1) as nat);
        if failed is None {
            match entry_plan(root, es[k - 1]) {
                EntryPlan::Put(l, d) => {
                    let now = plan_upto(root, es, k).0;
                    assert(now == done.push((k - 1, l, d)));
                    assert forall|t: int| 0 <= t < now.len() implies {
                        let x = #[trigger] now[t];
                        &&& 0 <= x.0 < k
                        &&& lands_safely(root, es[x.0], x.1)
                    } by {
                        if t < done.len() {
                            assert(now[t] == done[t]);
                        }
                    }
                },
                _ => {},
            }
        }
    }
}

/// Turning backslashes into slashes twice changes nothing more.
proof fn lemma_slashes_twice(s: Seq<char>)
    ensures
        slashes(slashes(s)) == slashes(s),
{
    assert(slashes(slashes(s)) =~= slashes(s));
}

/// The components of a path, as text.
pub open spec fn component_texts(n: Seq<char>) -> Seq<Seq<char>> {
    path_parts(n).map_values(|x: (PartKind, Seq<char>)| x.1)
}

/// A relative path that archives cleanly: not empty, not absolute once its
/// backslashes are read as slashes, and made of plain names only.
pub open spec fn clean_rel(rel: Seq<char>) -> bool {
    let n = slashes(rel);
    &&& rel.len() > 0
    &&& path_parts(n).len() > 0
    &&& !path_absolute(n)
    &&& forall|i: int| 0 <= i < path_parts(n).len() ==> (#[trigger] path_parts(n)[i]).0 == PartKind::Normal
}

/// Where the entries named for relative paths `rels` land: each at the
/// components of its name, a folder when the name ends with `/`.
pub open spec fn landings(rels: Seq<Seq<char>>, k: nat) -> Seq<(int, Seq<Seq<char>>, bool)> {
    Seq::new(k, |i: int| (i, component_texts(slashes(rels[i])), ends_with(slashes(rels[i]), "/"@)))
}

/// An archive written with [`zip_entry`] names extracts back: when every
/// entry is named for a clean relative path below the archived folder (the
/// name [`zip_entry`] gives it) and the entries do not all sit in one
/// wrapping folder, extraction fails on none of them and puts each at its
/// own relative path's components, in archive order.
pub proof fn lemma_archive_extracts_back(rels: Seq<Seq<char>>, es: Seq<Result<String, String>>, k: nat)
    requires
        k <= es.len(),
        es.len() == rels.len(),
        forall|i: int| 0 <= i < es.len() ==> ((#[trigger] es[i]) matches Ok(n) && n@ == slashes(rels[i])),
        forall|i: int| 0 <= i < rels.len() ==> clean_rel(#[trigger] rels[i]),
        common_root(es) is None,
    ensures
        plan_upto(common_root(es), es, k) == (landings(rels, k), None::<Seq<char>>),
    decreases k,
{
    if k > 0 {
        lemma_archive_extracts_back(rels, es, (k - 1) as nat);
        let i = k - 1;
        let rel = rels[i];
        assert(clean_rel(rel));
        let n = slashes(rel);
        let raw = es[i]->Ok_0;
        lemma_slashes_twice(rel);
        assert(slashes(raw@) == n);
        assert(n.len() == rel.len());
        assert(!(exists|j: int| 0 <= j < path_parts(n).len() && escaping(#[trigger] path_parts(n)[j].0))) by {
            assert forall|j: int| 0 <= j < path_parts(n).len() implies !escaping(#[trigger] path_parts(n)[j].0) by {
                assert(path_parts(n)[j].0 == PartKind::Normal);
            }
        }
        assert(!unsafe_entry(raw@));
        assert(landing(None, n) == component_texts(n));
        assert(component_texts(n).len() > 0);
        assert(entry_plan(None, es[i]) == EntryPlan::Put(component_texts(n), ends_with(n, "/"@)));
        assert(landings(rels, k) =~= landings(rels, (k - 1) as nat).push(
            (i as int, component_texts(n), ends_with(n, "/"@)),
        ));
    } else {
        assert(landings(rels, 0) =~= Seq::<(int, Seq<Seq<char>>, bool)>::empty());
    }
}

/// The name of a temporary folder next to a save folder named `name`, for
/// `purpose`, stamped `stamp`: `.name_silo_purpose_stamp`.
pub open spec fn sibling_name(name: Seq<char>, purpose: Seq<char>, stamp: Seq<char>) -> Seq<char> {
    seq!['.'] + name + "_silo_"@ + purpose + seq!['_'] + stamp
}

/// A temporary folder next to the save folder `path`: an error when the
/// folder has no parent or no name.
pub fn temporary_sibling(path: &str, purpose: &str, stamp: &str) -> (r: Result<String, String>)
    ensures
        match path_parent(path@) {
            None => r matches Err(e) && e@ == "Save folder has no parent directory"@,
            Some(parent) => match path_file_name(path@) {
                None => r matches Err(e) && e@ == "Save folder name is invalid"@,
                Some(name) => r matches Ok(p) && p@ == path_push(parent, sibling_name(name, purpose@, stamp@)),
            },
        },
{
    let parent = match parent_of(path) {
        Some(p) => p,
        None => {
            return Err("Save folder has no parent directory".to_owned());
        },
    };
    let name = match file_name_of(path) {
        Some(n) => n,
        None => {
            return Err("Save folder name is invalid".to_owned());
        },
    };
    proof {
        reveal_strlit(".");
        reveal_strlit("_silo_");
        reveal_strlit("_");
    }
    let leaf = ".".to_owned().concat(name.as_str()).concat("_silo_").concat(purpose).concat("_").concat(stamp);
    assert(leaf@ =~= sibling_name(name@, purpose@, stamp@));
    Ok(push_path(parent.as_str(), leaf.as_str()))
}

} // verus!
