//! A minimal reader for Valve's KeyValues text format (`.vdf` / `.acf`).
//!
//! The input is read byte by byte: quoted strings become tokens (each byte is
//! taken as the character with the same code, and backslash escapes are
//! resolved), braces become the tokens `{` and `}`, and everything else is
//! skipped. Tokens are then read as a sequence of `key value` or
//! `key { ... }` entries.
use vstd::prelude::*;
use crate::text::{chars_eq, cvs_view, push_char, str_chars, string_from_chars, strs_view};
use vstd::string::StringSliceAdditionalSpecFns;

verus! {

pub const QUOTE: u8 = 0x22;

pub const BACKSLASH: u8 = 0x5c;

pub const LBRACE: u8 = 0x7b;

pub const RBRACE: u8 = 0x7d;

/// ASCII whitespace as `u8::is_ascii_whitespace` defines it.
pub open spec fn is_ws(b: u8) -> bool {
    b == 0x20 || b == 0x09 || b == 0x0a || b == 0x0c || b == 0x0d
}

/// The character an escape `\b` stands for.
pub open spec fn unescape(b: u8) -> char {
    if b == 0x6e {
        '\n'
    } else if b == 0x74 {
        '\t'
    } else if b == 0x72 {
        '\r'
    } else {
        b as char
    }
}

/// Reads the body of a quoted string that starts right after its opening
/// quote: whether a closing quote was found, the value, and the number of
/// bytes consumed (closing quote included).
pub open spec fn quoted(b: Seq<u8>) -> (bool, Seq<char>, nat)
    decreases b.len(),
{
    if b.len() == 0 {
        (false, seq![], 0)
    } else if b[0] == BACKSLASH {
        if b.len() == 1 {
            (false, seq![], 1)
        } else {
            let r = quoted(b.skip(2));
            (r.0, seq![unescape(b[1])] + r.1, r.2 + 2)
        }
    } else if b[0] == QUOTE {
        (true, seq![], 1)
    } else {
        let r = quoted(b.skip(1));
        (r.0, seq![b[0] as char] + r.1, r.2 + 1)
    }
}

pub proof fn lemma_quoted_len(b: Seq<u8>)
    ensures
        quoted(b).2 <= b.len(),
        !quoted(b).0 ==> quoted(b).2 == b.len(),
    decreases b.len(),
{
    if b.len() == 0 {
    } else if b[0] == BACKSLASH {
        if b.len() > 1 {
            lemma_quoted_len(b.skip(2));
        }
    } else if b[0] == QUOTE {
    } else {
        lemma_quoted_len(b.skip(1));
    }
}

pub open spec fn open_token() -> Seq<char> {
    seq!['{']
}

pub open spec fn close_token() -> Seq<char> {
    seq!['}']
}

/// The token sequence of a byte sequence.
pub open spec fn lex(b: Seq<u8>) -> Seq<Seq<char>>
    decreases b.len(),
{
    if b.len() == 0 {
        seq![]
    } else if b[0] == LBRACE {
        seq![open_token()] + lex(b.skip(1))
    } else if b[0] == RBRACE {
        seq![close_token()] + lex(b.skip(1))
    } else if b[0] == QUOTE {
        let q = quoted(b.skip(1));
        proof {
            lemma_quoted_len(b.skip(1));
        }
        if q.0 {
            seq![q.1] + lex(b.skip(1 + q.2 as int))
        } else {
            lex(b.skip(1 + q.2 as int))
        }
    } else {
        lex(b.skip(1))
    }
}

/// Reads a quoted string whose body starts at `start`; returns whether it was
/// closed, its value, and the position after it.
fn lex_quoted(b: &[u8], start: usize) -> (r: (bool, Vec<char>, usize))
    requires
        start <= b@.len(),
    ensures
        r.0 == quoted(b@.skip(start as int)).0,
        r.1@ == quoted(b@.skip(start as int)).1,
        r.2 == start + quoted(b@.skip(start as int)).2,
{
    let mut value: Vec<char> = Vec::new();
    let mut pos = start;
    let ghost whole = quoted(b@.skip(start as int));
    while pos < b.len()
        invariant
            start <= pos <= b@.len(),
            whole == quoted(b@.skip(start as int)),
            ({
                let q = quoted(b@.skip(pos as int));
                &&& whole.0 == q.0
                &&& whole.1 == value@ + q.1
                &&& whole.2 == (pos - start) + q.2
            }),
        decreases b@.len() - pos,
    {
        let ch = b[pos];
        let ghost rest = b@.skip(pos as int);
        if ch == BACKSLASH {
            if pos + 1 < b.len() {
                let e = b[pos + 1];
                let c = if e == 0x6e {
                    '\n'
                } else if e == 0x74 {
                    '\t'
                } else if e == 0x72 {
                    '\r'
                } else {
                    e as char
                };
                assert(rest.skip(2) =~= b@.skip(pos + 2));
                let ghost old_value = value@;
                value.push(c);
                pos = pos + 2;
                assert(old_value + (seq![c] + quoted(b@.skip(pos as int)).1) =~= value@ + quoted(b@.skip(pos as int)).1);
            } else {
                pos = pos + 1;
                assert(b@.skip(pos as int).len() == 0);
                return (false, value, pos);
            }
        } else if ch == QUOTE {
            return (true, value, pos + 1);
        } else {
            assert(rest.skip(1) =~= b@.skip(pos + 1));
            let ghost old_value = value@;
            value.push(ch as char);
            pos = pos + 1;
            assert(old_value + (seq![ch as char] + quoted(b@.skip(pos as int)).1) =~= value@ + quoted(b@.skip(pos as int)).1);
        }
    }
    (false, value, pos)
}

/// Splits the bytes of `b` into tokens.
pub fn lex_bytes(b: &[u8]) -> (r: Vec<Vec<char>>)
    ensures
        cvs_view(r@) == lex(b@),
{
    let mut tokens: Vec<Vec<char>> = Vec::new();
    let mut pos: usize = 0;
    assert(b@.skip(0) =~= b@);
    assert(cvs_view(tokens@) + lex(b@) =~= lex(b@));
    while pos < b.len()
        invariant
            pos <= b@.len(),
            cvs_view(tokens@) + lex(b@.skip(pos as int)) == lex(b@),
        decreases b@.len() - pos,
    {
        let byte = b[pos];
        let ghost rest = b@.skip(pos as int);
        let ghost before = cvs_view(tokens@);
        if byte == 0x20 || byte == 0x09 || byte == 0x0a || byte == 0x0c || byte == 0x0d {
            assert(rest.skip(1) =~= b@.skip(pos + 1));
            pos = pos + 1;
        } else if byte == LBRACE {
            assert(rest.skip(1) =~= b@.skip(pos + 1));
            let mut t: Vec<char> = Vec::new();
            t.push('{');
            tokens.push(t);
            pos = pos + 1;
            assert(cvs_view(tokens@) =~= before.push(open_token()));
        } else if byte == RBRACE {
            assert(rest.skip(1) =~= b@.skip(pos + 1));
            let mut t: Vec<char> = Vec::new();
            t.push('}');
            tokens.push(t);
            pos = pos + 1;
            assert(cvs_view(tokens@) =~= before.push(close_token()));
        } else if byte == QUOTE {
            assert(rest.skip(1) =~= b@.skip(pos + 1));
            let (closed, value, next) = lex_quoted(b, pos + 1);
            proof {
                lemma_quoted_len(b@.skip(pos + 1));
                assert(rest.skip(1 + quoted(rest.skip(1)).2 as int) =~= b@.skip(next as int));
            }
            if closed {
                tokens.push(value);
                assert(cvs_view(tokens@) =~= before.push(quoted(rest.skip(1)).1));
            }
            pos = next;
        } else {
            assert(rest.skip(1) =~= b@.skip(pos + 1));
            pos = pos + 1;
        }
    }
    assert(b@.skip(pos as int) =~= Seq::<u8>::empty());
    tokens
}

/// `b` with every backslash and quote escaped by a backslash.
pub open spec fn escaped(b: Seq<u8>) -> Seq<u8>
    decreases b.len(),
{
    if b.len() == 0 {
        seq![]
    } else if b[0] == BACKSLASH || b[0] == QUOTE {
        seq![BACKSLASH, b[0]] + escaped(b.skip(1))
    } else {
        seq![b[0]] + escaped(b.skip(1))
    }
}

/// Each byte as the character with the same code (for ASCII text, the text
/// itself).
pub open spec fn byte_text(b: Seq<u8>) -> Seq<char> {
    b.map_values(|x: u8| x as char)
}

proof fn lemma_quoted_escaped(b: Seq<u8>)
    ensures
        quoted(escaped(b) + seq![QUOTE]) == (true, byte_text(b), escaped(b).len() + 1),
    decreases b.len(),
{
    let e = escaped(b) + seq![QUOTE];
    if b.len() == 0 {
        assert(e =~= seq![QUOTE]);
        assert(byte_text(b) =~= Seq::<char>::empty());
    } else {
        lemma_quoted_escaped(b.skip(1));
        let rest = escaped(b.skip(1)) + seq![QUOTE];
        assert(byte_text(b) =~= seq![b[0] as char] + byte_text(b.skip(1)));
        if b[0] == BACKSLASH || b[0] == QUOTE {
            assert(e =~= seq![BACKSLASH, b[0]] + rest);
            assert(e.skip(2) =~= rest);
        } else {
            assert(e =~= seq![b[0]] + rest);
            assert(e.skip(1) =~= rest);
        }
    }
}

/// A quoted string written with its backslashes and quotes escaped reads
/// back as the one token it was made from: tokenizing `"` + `escaped(b)` +
/// `"` gives exactly `b`, byte for byte, whatever braces, whitespace or
/// other bytes it holds.
pub proof fn lemma_escaped_token_reads_back(b: Seq<u8>)
    ensures
        lex(seq![QUOTE] + escaped(b) + seq![QUOTE]) == seq![byte_text(b)],
{
    let t = seq![QUOTE] + escaped(b) + seq![QUOTE];
    lemma_quoted_escaped(b);
    assert(t.skip(1) =~= escaped(b) + seq![QUOTE]);
    assert(t.skip(1 + (escaped(b).len() + 1) as int) =~= Seq::<u8>::empty());
    assert(lex(Seq::<u8>::empty()) == Seq::<Seq<char>>::empty());
    assert(seq![byte_text(b)] + Seq::<Seq<char>>::empty() =~= seq![byte_text(b)]);
}

/// Splits `input` into tokens (see the module documentation).
pub fn vdf_tokenize(input: &str) -> (r: Vec<String>)
    ensures
        strs_view(r@) == lex(input.spec_bytes()),
{
    let toks = lex_bytes(input.as_bytes());
    let mut r: Vec<String> = Vec::new();
    let mut i: usize = 0;
    while i < toks.len()
        invariant
            i <= toks@.len(),
            cvs_view(toks@) == lex(input.spec_bytes()),
            strs_view(r@) == cvs_view(toks@).take(i as int),
        decreases toks@.len() - i,
    {
        let s = string_from_chars(&toks[i]);
        let ghost before = r@;
        r.push(s);
        proof {
            assert(r@ == before.push(s));
            assert(strs_view(before).len() == i);
            assert(before.len() == i);
            assert forall|j: int| 0 <= j <= i implies #[trigger] strs_view(r@)[j]
                == cvs_view(toks@)[j] by {
                if j < i {
                    assert(r@[j] == before[j]);
                    assert(strs_view(before)[j] == cvs_view(toks@).take(i as int)[j]);
                } else {
                    assert(r@[j] == s);
                    assert(s@ == toks@[j]@);
                }
            }
        }
        i = i + 1;
        assert(strs_view(r@) =~= cvs_view(toks@).take(i as int));
    }
    assert(cvs_view(toks@).take(i as int) =~= cvs_view(toks@));
    r
}

/// A parsed value: a string, or an ordered list of keyed entries.
pub enum VdfValue {
    Str(String),
    Table(Vec<(String, VdfValue)>),
}

/// The mathematical form of a [`VdfValue`].
pub enum VdfTree {
    Str(Seq<char>),
    Table(Seq<(Seq<char>, VdfTree)>),
}

impl VdfValue {
    pub open spec fn tree(self) -> VdfTree
        decreases self,
    {
        match self {
            VdfValue::Str(s) => VdfTree::Str(s@),
            VdfValue::Table(es) => VdfTree::Table(entries_tree(es@)),
        }
    }
}

/// The mathematical form of a list of entries.
pub open spec fn entries_tree(es: Seq<(String, VdfValue)>) -> Seq<(Seq<char>, VdfTree)>
    decreases es,
{
    if es.len() == 0 {
        seq![]
    } else {
        entries_tree(es.drop_last()).push((es.last().0@, es.last().1.tree()))
    }
}

/// Reads one `key value` or `key { entries }` entry from the front of `t`:
/// the entry and the number of tokens it spans.
pub open spec fn parse_entry(t: Seq<Seq<char>>) -> Option<((Seq<char>, VdfTree), nat)>
    decreases t.len(), 0nat,
{
    if t.len() < 2 {
        None
    } else if t[1] == open_token() {
        match parse_body(t.skip(2)) {
            Some((es, n)) => Some(((t[0], VdfTree::Table(es)), n + 2)),
            None => None,
        }
    } else {
        Some(((t[0], VdfTree::Str(t[1])), 2))
    }
}

/// Reads the entries of a block up to and including its closing `}`.
pub open spec fn parse_body(t: Seq<Seq<char>>) -> Option<(Seq<(Seq<char>, VdfTree)>, nat)>
    decreases t.len(), 1nat,
{
    if t.len() == 0 {
        None
    } else if t[0] == close_token() {
        Some((seq![], 1))
    } else {
        match parse_entry(t) {
            Some((e, n)) => if 0 < n <= t.len() {
                match parse_body(t.skip(n as int)) {
                    Some((es, m)) => Some((seq![e] + es, n + m)),
                    None => None,
                }
            } else {
                None
            },
            None => None,
        }
    }
}

/// Reads entries until the tokens run out.
pub open spec fn parse_entries(t: Seq<Seq<char>>) -> Option<Seq<(Seq<char>, VdfTree)>>
    decreases t.len(),
{
    if t.len() == 0 {
        Some(seq![])
    } else {
        match parse_entry(t) {
            Some((e, n)) => if 0 < n <= t.len() {
                match parse_entries(t.skip(n as int)) {
                    Some(es) => Some(seq![e] + es),
                    None => None,
                }
            } else {
                None
            },
            None => None,
        }
    }
}

/// A whole document: at least one token, read as a list of entries.
pub open spec fn parse_document(t: Seq<Seq<char>>) -> Option<Seq<(Seq<char>, VdfTree)>> {
    if t.len() == 0 {
        None
    } else {
        parse_entries(t)
    }
}

pub proof fn lemma_parse_entry_len(t: Seq<Seq<char>>)
    ensures
        parse_entry(t) matches Some((_, n)) ==> 2 <= n <= t.len(),
    decreases t.len(), 0nat,
{
    if t.len() >= 2 && t[1] == open_token() {
        lemma_parse_body_len(t.skip(2));
    }
}

pub proof fn lemma_parse_body_len(t: Seq<Seq<char>>)
    ensures
        parse_body(t) matches Some((_, n)) ==> 1 <= n <= t.len(),
    decreases t.len(), 1nat,
{
    if t.len() > 0 && t[0] != close_token() {
        lemma_parse_entry_len(t);
        if let Some((e, n)) = parse_entry(t) {
            if 0 < n <= t.len() {
                lemma_parse_body_len(t.skip(n as int));
            }
        }
    }
}

/// Continues a partial block: `done` entries already read spanning `k` tokens.
pub open spec fn extend_body(
    done: Seq<(Seq<char>, VdfTree)>,
    k: int,
    r: Option<(Seq<(Seq<char>, VdfTree)>, nat)>,
) -> Option<(Seq<(Seq<char>, VdfTree)>, nat)> {
    match r {
        Some((es, m)) => Some((done + es, (k + m) as nat)),
        None => None,
    }
}

fn is_single(t: &Vec<char>, c: char) -> (r: bool)
    ensures
        r == (t@ == seq![c]),
{
    if t.len() == 1 && t[0] == c {
        assert(t@ =~= seq![c]);
        true
    } else {
        proof {
            if t@ == seq![c] {
                assert(t@.len() == 1);
            }
        }
        false
    }
}

/// Reads one entry starting at `*pos`, advancing `*pos` past it.
pub fn vdf_parse_map(tokens: &Vec<Vec<char>>, pos: &mut usize) -> (r: Option<(String, VdfValue)>)
    requires
        *old(pos) <= tokens@.len(),
    ensures
        match parse_entry(cvs_view(tokens@).skip(*old(pos) as int)) {
            Some((e, n)) => {
                &&& r matches Some(kv)
                &&& (kv.0@, kv.1.tree()) == e
                &&& *final(pos) == *old(pos) + n
            },
            None => r is None,
        },
    decreases tokens@.len() - *old(pos),
{
    let ghost t = cvs_view(tokens@);
    let start = *pos;
    let ghost ts = t.skip(start as int);
    if tokens.len() - start < 2 {
        return None;
    }
    let key = string_from_chars(&tokens[start]);
    assert(ts[0] == t[start as int]);
    assert(ts[1] == t[start + 1]);
    if is_single(&tokens[start + 1], '{') {
        *pos = start + 2;
        let ghost s = (start + 2) as int;
        assert(ts.skip(2) =~= t.skip(s));
        assert(ts[1] == open_token());
        let mut entries: Vec<(String, VdfValue)> = Vec::new();
        assert(t.skip(s).skip(0) =~= t.skip(s));
        assert(extend_body(entries_tree(entries@), 0, parse_body(t.skip(s))) =~= parse_body(t.skip(s)))
            by {
            match parse_body(t.skip(s)) {
                Some((es, m)) => {
                    assert(seq![] + es =~= es);
                },
                None => {},
            }
        }
        loop
            invariant_except_break
                parse_body(t.skip(s)) == extend_body(
                    entries_tree(entries@),
                    *pos - s,
                    parse_body(t.skip(*pos as int)),
                ),
            invariant
                t == cvs_view(tokens@),
                s == start + 2,
                start == *old(pos),
                start <= tokens@.len(),
                ts == t.skip(start as int),
                ts.len() >= 2,
                ts[1] == open_token(),
                ts.skip(2) == t.skip(s),
                s <= *pos <= tokens@.len(),
            ensures
                match parse_body(t.skip(s)) {
                    Some((es, m)) => entries_tree(entries@) == es && *pos == s + m,
                    None => false,
                },
            decreases tokens@.len() - *pos,
        {
            let p = *pos;
            if p >= tokens.len() {
                assert(t.skip(p as int).len() == 0);
                return None;
            }
            assert(t.skip(p as int)[0] == t[p as int]);
            if is_single(&tokens[p], '}') {
                *pos = p + 1;
                assert(entries_tree(entries@) + seq![] =~= entries_tree(entries@));
                break;
            }
            let ghost before = entries@;
            proof {
                lemma_parse_entry_len(t.skip(p as int));
            }
            match vdf_parse_map(tokens, pos) {
                Some(kv) => {
                    let ghost e = (kv.0@, kv.1.tree());
                    entries.push(kv);
                    proof {
                        assert(entries@.drop_last() =~= before);
                        assert(entries_tree(entries@) == entries_tree(before).push(e));
                        let n = (*pos - p) as nat;
                        assert(t.skip(p as int).skip(n as int) =~= t.skip(*pos as int));
                        match parse_body(t.skip(*pos as int)) {
                            Some((es, m)) => {
                                assert(entries_tree(before) + (seq![e] + es)
                                    =~= entries_tree(entries@) + es);
                            },
                            None => {},
                        }
                    }
                },
                None => {
                    assert(t.skip(p as int)[0] != close_token());
                    assert(parse_body(t.skip(p as int)) is None);
                    return None;
                },
            }
        }
        assert(ts.skip(2) =~= t.skip(s));
        Some((key, VdfValue::Table(entries)))
    } else {
        let value = string_from_chars(&tokens[start + 1]);
        *pos = start + 2;
        Some((key, VdfValue::Str(value)))
    }
}

/// Parses a whole document into its top-level entries; `None` when there are
/// no tokens or the entries do not form a complete, balanced document.
pub fn vdf_parse(input: &str) -> (r: Option<Vec<(String, VdfValue)>>)
    ensures
        match parse_document(lex(input.spec_bytes())) {
            Some(es) => r matches Some(v) && entries_tree(v@) == es,
            None => r is None,
        },
{
    let tokens = lex_bytes(input.as_bytes());
    let ghost t = cvs_view(tokens@);
    if tokens.len() == 0 {
        return None;
    }
    let mut pos: usize = 0;
    let mut root: Vec<(String, VdfValue)> = Vec::new();
    assert(t.skip(0) =~= t);
    assert(seq![] + parse_entries(t)->0 =~= parse_entries(t)->0);
    while pos < tokens.len()
        invariant
            t == cvs_view(tokens@),
            t == lex(input.spec_bytes()),
            t.len() > 0,
            pos <= tokens@.len(),
            match parse_entries(t.skip(pos as int)) {
                Some(rest) => parse_entries(t) == Some(entries_tree(root@) + rest),
                None => parse_entries(t) is None,
            },
        decreases tokens@.len() - pos,
    {
        let p = pos;
        let ghost before = root@;
        proof {
            lemma_parse_entry_len(t.skip(p as int));
        }
        match vdf_parse_map(&tokens, &mut pos) {
            Some(kv) => {
                let ghost e = (kv.0@, kv.1.tree());
                root.push(kv);
                proof {
                    assert(root@.drop_last() =~= before);
                    assert(entries_tree(root@) == entries_tree(before).push(e));
                    assert(t.skip(p as int).skip(pos - p) =~= t.skip(pos as int));
                    match parse_entries(t.skip(pos as int)) {
                        Some(rest) => {
                            assert(entries_tree(before) + (seq![e] + rest)
                                =~= entries_tree(root@) + rest);
                        },
                        None => {},
                    }
                }
            },
            None => {
                return None;
            },
        }
    }
    assert(t.skip(pos as int) =~= Seq::<Seq<char>>::empty());
    assert(entries_tree(root@) + seq![] =~= entries_tree(root@));
    Some(root)
}

/// The value of the first entry of `map` whose key is `key`.
pub fn vdf_get<'a>(map: &'a [(String, VdfValue)], key: &str) -> (r: Option<&'a VdfValue>)
    ensures
        match r {
            Some(v) => exists|i: int|
                0 <= i < map@.len() && map@[i].0@ == key@ && *v == map@[i].1 && forall|j: int|
                    0 <= j < i ==> map@[j].0@ != key@,
            None => forall|i: int| 0 <= i < map@.len() ==> map@[i].0@ != key@,
        },
{
    let wanted = str_chars(key);
    let mut i: usize = 0;
    while i < map.len()
        invariant
            i <= map@.len(),
            wanted@ == key@,
            forall|j: int| 0 <= j < i ==> map@[j].0@ != key@,
        decreases map@.len() - i,
    {
        let k = str_chars(map[i].0.as_str());
        if chars_eq(&k, &wanted) {
            return Some(&map[i].1);
        }
        i = i + 1;
    }
    None
}

/// The string held by `value`, if it is a string.
pub fn vdf_str(value: &VdfValue) -> (r: Option<String>)
    ensures
        match value {
            VdfValue::Str(s) => r matches Some(t) && t@ == s@,
            VdfValue::Table(_) => r is None,
        },
{
    match value {
        VdfValue::Str(s) => Some(s.clone()),
        VdfValue::Table(_) => None,
    }
}

} // verus!
