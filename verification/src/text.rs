//! Character-level helpers shared by the parsers and matchers.
use vstd::prelude::*;

verus! {

/// The character sequences held by a list of strings.
pub open spec fn strs_view(v: Seq<String>) -> Seq<Seq<char>> {
    v.map_values(|t: String| t@)
}

/// The character sequences held by a list of character vectors.
pub open spec fn cvs_view(v: Seq<Vec<char>>) -> Seq<Seq<char>> {
    v.map_values(|t: Vec<char>| t@)
}

/// Appends `c` to `s` (`String::push`).
#[verifier::external_body]
pub(crate) fn push_char(s: &mut String, c: char)
    ensures
        final(s)@ == old(s)@.push(c),
{
    s.push(c);
}

/// The characters of `s`, in order.
pub fn str_chars(s: &str) -> (r: Vec<char>)
    ensures
        r@ == s@,
{
    let mut r: Vec<char> = Vec::new();
    for c in it: s.chars()
        invariant
            r@ == it.seq().take(it.index() as int),
    {
        r.push(c);
    }
    assert(r@ =~= s@);
    r
}

/// A `String` holding exactly the characters of `cs`.
pub fn string_from_chars(cs: &Vec<char>) -> (r: String)
    ensures
        r@ == cs@,
{
    let mut r = String::new();
    let mut i: usize = 0;
    while i < cs.len()
        invariant
            i <= cs.len(),
            r@ == cs@.take(i as int),
        decreases cs.len() - i,
    {
        push_char(&mut r, cs[i]);
        i = i + 1;
        assert(r@ =~= cs@.take(i as int));
    }
    assert(cs@.take(i as int) =~= cs@);
    r
}

/// Whether two character sequences are equal.
pub fn chars_eq(a: &Vec<char>, b: &Vec<char>) -> (r: bool)
    ensures
        r == (a@ == b@),
{
    if a.len() != b.len() {
        return false;
    }
    let mut i: usize = 0;
    while i < a.len()
        invariant
            a.len() == b.len(),
            i <= a.len(),
            forall|j: int| 0 <= j < i ==> a@[j] == b@[j],
        decreases a.len() - i,
    {
        if a[i] != b[i] {
            return false;
        }
        i = i + 1;
    }
    assert(a@ =~= b@);
    true
}

/// Unicode lowercase mapping of a whole string (`str::to_lowercase`).
pub uninterp spec fn lowercase(s: Seq<char>) -> Seq<char>;

/// `str::to_lowercase`: the string mapped to lowercase. The mapping is
/// Unicode's, context-sensitive for a final sigma; the contract names the
/// result and states nothing more of it.
#[verifier::external_body]
pub(crate) fn str_lowercase(s: &str) -> (r: String)
    ensures
        r@ == lowercase(s@),
{
    s.to_lowercase()
}

/// Unicode `Alphabetic` or `Numeric` property of a character.
pub uninterp spec fn alphanumeric(c: char) -> bool;

/// `char::is_alphanumeric`: whether `c` is alphabetic or numeric in Unicode;
/// the contract names the result.
#[verifier::external_body]
pub(crate) fn is_alphanumeric(c: char) -> (r: bool)
    ensures
        r == alphanumeric(c),
{
    c.is_alphanumeric()
}

/// Whether `needle` occurs as a contiguous part of `hay`.
pub open spec fn contains_seq(hay: Seq<char>, needle: Seq<char>) -> bool {
    exists|i: int| 0 <= i <= hay.len() - needle.len() && #[trigger] hay.subrange(i, i + needle.len()) == needle
}

/// Whether `needle` occurs in `hay` starting at `i`.
fn occurs_at(hay: &Vec<char>, needle: &Vec<char>, i: usize) -> (r: bool)
    requires
        i + needle@.len() <= hay@.len(),
    ensures
        r == (hay@.subrange(i as int, i + needle@.len()) == needle@),
{
    let mut k: usize = 0;
    assert(hay@.len() == hay.len());
    while k < needle.len()
        invariant
            i + needle@.len() <= hay@.len(),
            hay@.len() == hay.len(),
            k <= needle@.len(),
            forall|m: int| 0 <= m < k ==> hay@[i + m] == needle@[m],
        decreases needle@.len() - k,
    {
        if hay[i + k] != needle[k] {
            assert(hay@.subrange(i as int, i + needle@.len())[k as int] != needle@[k as int]);
            return false;
        }
        k = k + 1;
    }
    assert(hay@.subrange(i as int, i + needle@.len()) =~= needle@);
    true
}

/// Whether `needle` occurs as a contiguous part of `hay`.
pub fn chars_contain(hay: &Vec<char>, needle: &Vec<char>) -> (r: bool)
    ensures
        r == contains_seq(hay@, needle@),
{
    if needle.len() > hay.len() {
        return false;
    }
    let last = hay.len() - needle.len();
    let mut i: usize = 0;
    loop
        invariant
            last == hay@.len() - needle@.len(),
            i <= last,
            forall|j: int| 0 <= j < i ==> #[trigger] hay@.subrange(j, j + needle@.len()) != needle@,
        decreases last - i,
    {
        if occurs_at(hay, needle, i) {
            return true;
        }
        if i == last {
            return false;
        }
        i = i + 1;
    }
}

/// Whether two strings hold the same characters.
pub fn str_eq(a: &str, b: &str) -> (r: bool)
    ensures
        r == (a@ == b@),
{
    let x = str_chars(a);
    let y = str_chars(b);
    chars_eq(&x, &y)
}

/// Unicode lowercase mapping of a single character, which may be several
/// characters long (`char::to_lowercase`).
pub uninterp spec fn char_lower(c: char) -> Seq<char>;

/// `char::to_lowercase`: the characters `c` maps to in lowercase; the contract
/// names the result.
#[verifier::external_body]
pub(crate) fn char_lowercase(c: char) -> (r: Vec<char>)
    ensures
        r@ == char_lower(c),
{
    c.to_lowercase().collect()
}

/// What kind of component of a path a part is (`std::path::Component`).
#[derive(Debug, Clone, Copy, PartialEq, Eq, Structural)]
pub enum PartKind {
    /// A Windows drive or share prefix.
    Prefix,
    /// The root separator.
    Root,
    /// `.`
    Current,
    /// `..`
    Parent,
    /// A plain name.
    Normal,
}

/// The components of a path, each with its kind and its text
/// (`Path::components`).
pub uninterp spec fn path_parts(p: Seq<char>) -> Seq<(PartKind, Seq<char>)>;

/// `Path::components`: the components of `p`, each told apart by kind and
/// converted to text; the contract names the result.
#[verifier::external_body]
pub(crate) fn parts_of(p: &str) -> (r: Vec<(PartKind, String)>)
    ensures
        r@.len() == path_parts(p@).len(),
        forall|i: int| 0 <= i < r@.len() ==> (#[trigger] r@[i]).0 == path_parts(p@)[i].0 && r@[i].1@ == path_parts(p@)[i].1,
{
    std::path::Path::new(p).components().map(|c| {
        let kind = match c {
            std::path::Component::Prefix(_) => PartKind::Prefix,
            std::path::Component::RootDir => PartKind::Root,
            std::path::Component::CurDir => PartKind::Current,
            std::path::Component::ParentDir => PartKind::Parent,
            std::path::Component::Normal(_) => PartKind::Normal,
        };
        (kind, c.as_os_str().to_string_lossy().into_owned())
    }).collect()
}

/// The components of a path, each as text.
pub open spec fn path_components(p: Seq<char>) -> Seq<Seq<char>> {
    path_parts(p).map_values(|x: (PartKind, Seq<char>)| x.1)
}

/// The components of `p`, each as text.
pub fn components_of(p: &str) -> (r: Vec<String>)
    ensures
        strs_view(r@) == path_components(p@),
{
    let parts = parts_of(p);
    let mut r: Vec<String> = Vec::new();
    let mut i: usize = 0;
    while i < parts.len()
        invariant
            i <= parts@.len(),
            parts@.len() == path_parts(p@).len(),
            forall|k: int| 0 <= k < parts@.len() ==> (#[trigger] parts@[k]).1@ == path_parts(p@)[k].1,
            strs_view(r@) == path_components(p@).take(i as int),
        decreases parts@.len() - i,
    {
        let ghost before = strs_view(r@);
        r.push(parts[i].1.clone());
        assert(path_components(p@)[i as int] == path_parts(p@)[i as int].1);
        assert(strs_view(r@) =~= before.push(path_parts(p@)[i as int].1));
        i = i + 1;
        assert(strs_view(r@) =~= path_components(p@).take(i as int));
    }
    assert(path_components(p@).take(i as int) =~= path_components(p@));
    r
}

/// The path `base` extended by `part` (`PathBuf::push`).
pub uninterp spec fn path_push(base: Seq<char>, part: Seq<char>) -> Seq<char>;

/// `PathBuf::push`: `base` extended by `part`, as text; the contract names
/// the result.
#[verifier::external_body]
pub(crate) fn push_path(base: &str, part: &str) -> (r: String)
    ensures
        r@ == path_push(base@, part@),
{
    let mut b = std::path::PathBuf::from(base);
    b.push(part);
    b.to_string_lossy().into_owned()
}

/// The characters of an optional string.
pub open spec fn opt_chars(o: Option<String>) -> Option<Seq<char>> {
    match o {
        Some(s) => Some(s@),
        None => None,
    }
}

/// The last component of a path, when it is a normal name (`Path::file_name`).
pub uninterp spec fn path_file_name(p: Seq<char>) -> Option<Seq<char>>;

/// `Path::file_name`, as text; the contract names the result.
#[verifier::external_body]
pub(crate) fn file_name_of(p: &str) -> (r: Option<String>)
    ensures
        opt_chars(r) == path_file_name(p@),
{
    std::path::Path::new(p).file_name().map(|n| n.to_string_lossy().into_owned())
}

/// The file name without its extension (`Path::file_stem`).
pub uninterp spec fn path_file_stem(p: Seq<char>) -> Option<Seq<char>>;

/// `Path::file_stem`, as text; the contract names the result.
#[verifier::external_body]
pub(crate) fn file_stem_of(p: &str) -> (r: Option<String>)
    ensures
        opt_chars(r) == path_file_stem(p@),
{
    std::path::Path::new(p).file_stem().map(|n| n.to_string_lossy().into_owned())
}

/// The extension of the file name, without the dot (`Path::extension`).
pub uninterp spec fn path_extension(p: Seq<char>) -> Option<Seq<char>>;

/// `Path::extension`, as text; the contract names the result.
#[verifier::external_body]
pub(crate) fn extension_of(p: &str) -> (r: Option<String>)
    ensures
        opt_chars(r) == path_extension(p@),
{
    std::path::Path::new(p).extension().map(|n| n.to_string_lossy().into_owned())
}

/// The path without its last component (`Path::parent`).
pub uninterp spec fn path_parent(p: Seq<char>) -> Option<Seq<char>>;

/// `Path::parent`, as text; the contract names the result.
#[verifier::external_body]
pub(crate) fn parent_of(p: &str) -> (r: Option<String>)
    ensures
        opt_chars(r) == path_parent(p@),
{
    std::path::Path::new(p).parent().map(|n| n.to_string_lossy().into_owned())
}

/// Bytes needed to encode `c` in UTF-8.
pub open spec fn char_width(c: char) -> nat {
    if (c as u32) < 0x80 {
        1
    } else if (c as u32) < 0x800 {
        2
    } else if (c as u32) < 0x10000 {
        3
    } else {
        4
    }
}

/// Bytes needed to encode `p` in UTF-8.
pub open spec fn utf8_width(p: Seq<char>) -> nat
    decreases p.len(),
{
    if p.len() == 0 {
        0
    } else {
        utf8_width(p.drop_last()) + char_width(p.last())
    }
}

pub proof fn lemma_width_at_least_len(p: Seq<char>)
    ensures
        utf8_width(p) >= p.len(),
    decreases p.len(),
{
    if p.len() > 0 {
        lemma_width_at_least_len(p.drop_last());
    }
}

/// Index of the first `c` in `s`.
pub open spec fn find_char(s: Seq<char>, c: char) -> Option<int>
    decreases s.len(),
{
    if s.len() == 0 {
        None
    } else if s[0] == c {
        Some(0)
    } else {
        match find_char(s.drop_first(), c) {
            Some(i) => Some(i + 1),
            None => None,
        }
    }
}

pub proof fn lemma_find_char(s: Seq<char>, c: char)
    ensures
        match find_char(s, c) {
            Some(i) => 0 <= i < s.len() && s[i] == c && forall|k: int| 0 <= k < i ==> s[k] != c,
            None => forall|k: int| 0 <= k < s.len() ==> s[k] != c,
        },
    decreases s.len(),
{
    if s.len() > 0 && s[0] != c {
        lemma_find_char(s.drop_first(), c);
        match find_char(s.drop_first(), c) {
            Some(i) => {
                assert forall|k: int| 0 <= k < i + 1 implies s[k] != c by {
                    if k > 0 {
                        assert(s[k] == s.drop_first()[k - 1]);
                    }
                }
            },
            None => {
                assert forall|k: int| 0 <= k < s.len() implies s[k] != c by {
                    if k > 0 {
                        assert(s[k] == s.drop_first()[k - 1]);
                    }
                }
            },
        }
    }
}

/// Index of the first `c` at or after `start`, as `find_char` sees the suffix.
pub(crate) fn find_from(s: &Vec<char>, c: char, start: usize) -> (r: Option<usize>)
    requires
        start <= s@.len(),
    ensures
        match find_char(s@.skip(start as int), c) {
            Some(i) => r == Some((start + i) as usize),
            None => r is None,
        },
{
    let mut i = start;
    while i < s.len()
        invariant
            start <= i <= s@.len(),
            forall|k: int| start <= k < i ==> s@[k] != c,
        decreases s@.len() - i,
    {
        if s[i] == c {
            proof {
                lemma_find_char(s@.skip(start as int), c);
                let t = s@.skip(start as int);
                match find_char(t, c) {
                    Some(j) => {
                        if j < i - start {
                            assert(s@[start + j] == c);
                        }
                        if j > i - start {
                            assert(t[i - start] == c);
                        }
                    },
                    None => {
                        assert(t[i - start] == c);
                    },
                }
            }
            return Some(i);
        }
        i = i + 1;
    }
    proof {
        lemma_find_char(s@.skip(start as int), c);
        let t = s@.skip(start as int);
        if let Some(j) = find_char(t, c) {
            assert(t[j] == s@[start + j]);
        }
    }
    None
}

/// `str::splitn`: at most `n` pieces, split at the first `n - 1` occurrences of `c`.
pub open spec fn split_n(s: Seq<char>, c: char, n: nat) -> Seq<Seq<char>>
    decreases n,
{
    if n <= 1 {
        seq![s]
    } else {
        match find_char(s, c) {
            None => seq![s],
            Some(i) => seq![s.take(i)] + split_n(s.skip(i + 1), c, (n - 1) as nat),
        }
    }
}

/// The characters of `s` from `a` up to `b`.
pub fn sub_chars(s: &Vec<char>, a: usize, b: usize) -> (r: Vec<char>)
    requires
        a <= b <= s@.len(),
    ensures
        r@ == s@.subrange(a as int, b as int),
{
    let mut r: Vec<char> = Vec::new();
    let mut i = a;
    while i < b
        invariant
            a <= i <= b <= s@.len(),
            r@ == s@.subrange(a as int, i as int),
        decreases b - i,
    {
        r.push(s[i]);
        i = i + 1;
        assert(r@ =~= s@.subrange(a as int, i as int));
    }
    r
}

/// Splits `s` into at most `n` pieces at the first `n - 1` occurrences of `c`.
pub fn splitn_chars(s: &Vec<char>, c: char, n: usize) -> (r: Vec<Vec<char>>)
    requires
        n >= 1,
    ensures
        cvs_view(r@) == split_n(s@, c, n as nat),
{
    let mut pieces: Vec<Vec<char>> = Vec::new();
    let mut start: usize = 0;
    let slen = s.len();
    assert(s@.skip(0) =~= s@);
    assert(cvs_view(pieces@) + split_n(s@, c, n as nat) =~= split_n(s@, c, n as nat));
    loop
        invariant
            n >= 1,
            slen == s@.len(),
            pieces@.len() < n,
            start <= s@.len(),
            cvs_view(pieces@) + split_n(s@.skip(start as int), c, (n - pieces@.len()) as nat) == split_n(
                s@,
                c,
                n as nat,
            ),
        decreases n - pieces@.len(),
    {
        let ghost rest = s@.skip(start as int);
        let ghost before = cvs_view(pieces@);
        let ghost m = (n - pieces@.len()) as nat;
        if pieces.len() + 1 == n {
            let piece = sub_chars(s, start, s.len());
            assert(piece@ =~= rest);
            pieces.push(piece);
            assert(cvs_view(pieces@) =~= before.push(rest));
            assert(before + seq![rest] =~= before.push(rest));
            return pieces;
        }
        match find_from(s, c, start) {
            None => {
                let piece = sub_chars(s, start, s.len());
                assert(piece@ =~= rest);
                pieces.push(piece);
                assert(cvs_view(pieces@) =~= before.push(rest));
                assert(before + seq![rest] =~= before.push(rest));
                return pieces;
            },
            Some(at) => {
                proof {
                    lemma_find_char(rest, c);
                    let j = find_char(rest, c)->0;
                    assert(0 <= j < rest.len());
                    assert(at as int == start + j);
                }
                let piece = sub_chars(s, start, at);
                let ghost i = (at - start) as int;
                assert(piece@ =~= rest.take(i));
                pieces.push(piece);
                assert(cvs_view(pieces@) =~= before.push(rest.take(i)));
                assert(rest.skip(i + 1) =~= s@.skip(at + 1));
                assert(before + (seq![rest.take(i)] + split_n(rest.skip(i + 1), c, (m - 1) as nat))
                    =~= cvs_view(pieces@) + split_n(s@.skip(at + 1), c, (m - 1) as nat));
                start = at + 1;
            },
        }
    }
}

/// Whether `s` begins with `prefix`.
pub open spec fn starts_with(s: Seq<char>, prefix: Seq<char>) -> bool {
    prefix.len() <= s.len() && s.take(prefix.len() as int) == prefix
}

/// Whether `s` ends with `suffix`.
pub open spec fn ends_with(s: Seq<char>, suffix: Seq<char>) -> bool {
    suffix.len() <= s.len() && s.skip(s.len() - suffix.len()) == suffix
}

/// Whether `s` begins with `prefix`.
pub fn chars_start_with(s: &Vec<char>, prefix: &Vec<char>) -> (r: bool)
    ensures
        r == starts_with(s@, prefix@),
{
    if prefix.len() > s.len() {
        return false;
    }
    let head = sub_chars(s, 0, prefix.len());
    assert(head@ =~= s@.take(prefix@.len() as int));
    chars_eq(&head, prefix)
}

/// Whether `s` ends with `suffix`.
pub fn chars_end_with(s: &Vec<char>, suffix: &Vec<char>) -> (r: bool)
    ensures
        r == ends_with(s@, suffix@),
{
    if suffix.len() > s.len() {
        return false;
    }
    let tail = sub_chars(s, s.len() - suffix.len(), s.len());
    assert(tail@ =~= s@.skip(s@.len() - suffix@.len()));
    chars_eq(&tail, suffix)
}

/// Unicode `White_Space`, as `char::is_whitespace` tests it.
pub open spec fn is_white(c: char) -> bool {
    let u = c as u32;
    (0x9 <= u <= 0xd) || u == 0x20 || u == 0x85 || u == 0xa0 || u == 0x1680 || (0x2000 <= u <= 0x200a)
        || u == 0x2028 || u == 0x2029 || u == 0x202f || u == 0x205f || u == 0x3000
}

/// `char::is_whitespace`.
pub fn char_is_white(c: char) -> (r: bool)
    ensures
        r == is_white(c),
{
    let u = c as u32;
    (0x9 <= u && u <= 0xd) || u == 0x20 || u == 0x85 || u == 0xa0 || u == 0x1680 || (0x2000 <= u && u
        <= 0x200a) || u == 0x2028 || u == 0x2029 || u == 0x202f || u == 0x205f || u == 0x3000
}

/// `s` without leading whitespace.
pub open spec fn trim_start(s: Seq<char>) -> Seq<char>
    decreases s.len(),
{
    if s.len() > 0 && is_white(s[0]) {
        trim_start(s.drop_first())
    } else {
        s
    }
}

/// `s` without trailing whitespace.
pub open spec fn trim_end(s: Seq<char>) -> Seq<char>
    decreases s.len(),
{
    if s.len() > 0 && is_white(s.last()) {
        trim_end(s.drop_last())
    } else {
        s
    }
}

/// `str::trim`: `s` without leading or trailing whitespace.
pub open spec fn trimmed(s: Seq<char>) -> Seq<char> {
    trim_end(trim_start(s))
}

/// The characters of `s` without leading or trailing whitespace.
pub fn trim_chars(s: &Vec<char>) -> (r: Vec<char>)
    ensures
        r@ == trimmed(s@),
{
    let mut a: usize = 0;
    assert(s@.skip(0) =~= s@);
    while a < s.len() && char_is_white(s[a])
        invariant
            a <= s@.len(),
            trim_start(s@) == trim_start(s@.skip(a as int)),
        decreases s@.len() - a,
    {
        assert(s@.skip(a as int).drop_first() =~= s@.skip(a + 1));
        a = a + 1;
    }
    let mut b: usize = s.len();
    assert(s@.skip(a as int) =~= s@.subrange(a as int, b as int));
    while b > a && char_is_white(s[b - 1])
        invariant
            a <= b <= s@.len(),
            trimmed(s@) == trim_end(s@.subrange(a as int, b as int)),
        decreases b - a,
    {
        assert(s@.subrange(a as int, b as int).drop_last() =~= s@.subrange(a as int, b - 1));
        b = b - 1;
    }
    sub_chars(s, a, b)
}

/// The first `c` in `x + [c] + y` is the one after `x` when `x` holds none.
pub proof fn lemma_find_char_concat(x: Seq<char>, c: char, y: Seq<char>)
    requires
        forall|k: int| 0 <= k < x.len() ==> x[k] != c,
    ensures
        find_char(x + seq![c] + y, c) == Some(x.len() as int),
    decreases x.len(),
{
    if x.len() == 0 {
        assert((x + seq![c] + y)[0] == c);
    } else {
        lemma_find_char_concat(x.drop_first(), c, y);
        assert((x + seq![c] + y).drop_first() =~= x.drop_first() + seq![c] + y);
    }
}

/// With no `c` in `s`, `s` splits into itself alone.
pub proof fn lemma_split_none(s: Seq<char>, c: char, n: nat)
    requires
        forall|k: int| 0 <= k < s.len() ==> s[k] != c,
    ensures
        split_n(s, c, n) == seq![s],
{
    lemma_find_char(s, c);
}

/// The pieces of `s` between its occurrences of `c` (`str::split`).
pub open spec fn split_all(s: Seq<char>, c: char) -> Seq<Seq<char>>
    decreases s.len(),
{
    match find_char(s, c) {
        None => seq![s],
        Some(i) => if 0 <= i < s.len() {
            seq![s.take(i)] + split_all(s.skip(i + 1), c)
        } else {
            seq![s]
        },
    }
}

/// The lines of `s`: the pieces between its newlines.
pub open spec fn lines(s: Seq<char>) -> Seq<Seq<char>> {
    split_all(s, '\n')
}

/// Splits `s` at every `c`.
pub fn split_on(s: &Vec<char>, c: char) -> (r: Vec<Vec<char>>)
    ensures
        cvs_view(r@) == split_all(s@, c),
{
    let mut pieces: Vec<Vec<char>> = Vec::new();
    let mut start: usize = 0;
    let slen = s.len();
    assert(s@.skip(0) =~= s@);
    assert(cvs_view(pieces@) + split_all(s@, c) =~= split_all(s@, c));
    loop
        invariant
            slen == s@.len(),
            start <= slen,
            cvs_view(pieces@) + split_all(s@.skip(start as int), c) == split_all(s@, c),
        decreases slen - start,
    {
        let ghost rest = s@.skip(start as int);
        proof {
            lemma_find_char(rest, c);
        }
        match find_from(s, c, start) {
            Some(j) => {
                let piece = sub_chars(s, start, j);
                proof {
                    assert(find_char(rest, c) == Some((j - start) as int));
                    assert(piece@ =~= rest.take(j - start));
                    assert(rest.skip(j - start + 1) =~= s@.skip(j + 1));
                    assert(cvs_view(pieces@.push(piece)) =~= cvs_view(pieces@) + seq![piece@]);
                    assert(split_all(rest, c) == seq![rest.take(j - start)] + split_all(rest.skip(j - start + 1), c));
                }
                pieces.push(piece);
                start = j + 1;
                assert(cvs_view(pieces@) + split_all(s@.skip(start as int), c) =~= split_all(s@, c));
            },
            None => {
                let piece = sub_chars(s, start, slen);
                proof {
                    assert(find_char(rest, c) is None);
                    assert(piece@ =~= rest);
                    assert(cvs_view(pieces@.push(piece)) =~= cvs_view(pieces@) + seq![piece@]);
                }
                pieces.push(piece);
                return pieces;
            },
        }
    }
}

/// Splits `s` at every newline.
pub fn split_lines(s: &Vec<char>) -> (r: Vec<Vec<char>>)
    ensures
        cvs_view(r@) == lines(s@),
{
    split_on(s, '\n')
}

} // verus!
