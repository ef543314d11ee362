//! Expansion of the `%NAME%` references that Windows keeps in "User Shell
//! Folders" values.
//!
//! Which names are set is a property of the process environment, so the
//! expansion takes the looked-up values as an argument: `env_var_keys` lists
//! every name the text may refer to, the caller looks each one up, and
//! `expand_env_vars` does the rest.
use vstd::prelude::*;
use crate::text::{
    find_char, find_from, lemma_find_char, opt_chars, str_chars, str_eq, string_from_chars,
    strs_view, sub_chars,
};

verus! {

/// The UTF-8 encoding of `c`.
pub open spec fn utf8_bytes(c: char) -> Seq<u8> {
    let n = c as int;
    if n < 0x80 {
        seq![n as u8]
    } else if n < 0x800 {
        seq![(0xc0 + n / 64) as u8, (0x80 + n % 64) as u8]
    } else if n < 0x10000 {
        seq![(0xe0 + n / 4096) as u8, (0x80 + (n / 64) % 64) as u8, (0x80 + n % 64) as u8]
    } else {
        seq![
            (0xf0 + n / 262144) as u8,
            (0x80 + (n / 4096) % 64) as u8,
            (0x80 + (n / 64) % 64) as u8,
            (0x80 + n % 64) as u8,
        ]
    }
}

/// What copying `c` byte by byte gives: one character per byte of its
/// encoding, each the character with that byte's code. For ASCII this is
/// `c` itself.
pub open spec fn byte_chars(c: char) -> Seq<char> {
    utf8_bytes(c).map_values(|b: u8| b as char)
}

/// The name referred to by a `%` at `i`: the text up to the next `%`, when
/// there is one and the name is not empty.
pub open spec fn key_at(s: Seq<char>, i: int) -> Option<Seq<char>> {
    match find_char(s.skip(i + 1), '%') {
        Some(j) => if j > 0 {
            Some(s.subrange(i + 1, i + 1 + j))
        } else {
            None
        },
        None => None,
    }
}

/// The value given for `name`: that of the first pair that names it.
pub open spec fn env_value(vals: Seq<(Seq<char>, Option<Seq<char>>)>, name: Seq<char>) -> Option<
    Seq<char>,
>
    decreases vals.len(),
{
    if vals.len() == 0 {
        None
    } else if vals[0].0 == name {
        vals[0].1
    } else {
        env_value(vals.drop_first(), name)
    }
}

/// The looked-up values as plain sequences.
pub open spec fn env_view(vals: Seq<(String, Option<String>)>) -> Seq<(Seq<char>, Option<Seq<char>>)> {
    vals.map_values(|p: (String, Option<String>)| (p.0@, opt_chars(p.1)))
}

/// Expansion of `s` from position `i` on: a `%NAME%` whose name has a value
/// becomes that value; every other character is copied byte by byte.
pub open spec fn expand_from(s: Seq<char>, i: int, vals: Seq<(Seq<char>, Option<Seq<char>>)>) -> Seq<
    char,
>
    decreases s.len() - i,
{
    if i < 0 || i >= s.len() {
        Seq::empty()
    } else {
        let literal = byte_chars(s[i]) + expand_from(s, i + 1, vals);
        if s[i] == '%' {
            match key_at(s, i) {
                Some(k) => match env_value(vals, k) {
                    Some(v) => {
                        proof {
                            lemma_find_char(s.skip(i + 1), '%');
                        }
                        v + expand_from(s, i + k.len() + 2, vals)
                    },
                    None => literal,
                },
                None => literal,
            }
        } else {
            literal
        }
    }
}

/// The names referred to from position `i` on, one for each `%` that starts
/// a reference, in order.
pub open spec fn keys_from(s: Seq<char>, i: int) -> Seq<Seq<char>>
    decreases s.len() - i,
{
    if i < 0 || i >= s.len() {
        Seq::empty()
    } else if s[i] == '%' {
        match key_at(s, i) {
            Some(k) => seq![k] + keys_from(s, i + 1),
            None => keys_from(s, i + 1),
        }
    } else {
        keys_from(s, i + 1)
    }
}

proof fn lemma_key_at(s: Seq<char>, i: int)
    requires
        0 <= i < s.len(),
    ensures
        match key_at(s, i) {
            Some(k) => i + k.len() + 2 <= s.len() && s[i + k.len() + 1] == '%' && k.len() > 0,
            None => true,
        },
{
    lemma_find_char(s.skip(i + 1), '%');
}

fn byte_char(b: u8) -> (r: char)
    ensures
        r == b as char,
{
    b as char
}

/// Appends the characters that copying `c` byte by byte gives.
fn push_byte_chars(out: &mut Vec<char>, c: char)
    ensures
        final(out)@ == old(out)@ + byte_chars(c),
{
    let n = c as u32;
    let ghost bs = utf8_bytes(c);
    if n < 0x80 {
        out.push(byte_char(n as u8));
    } else if n < 0x800 {
        out.push(byte_char((0xc0 + n / 64) as u8));
        out.push(byte_char((0x80 + n % 64) as u8));
    } else if n < 0x10000 {
        out.push(byte_char((0xe0 + n / 4096) as u8));
        out.push(byte_char((0x80 + (n / 64) % 64) as u8));
        out.push(byte_char((0x80 + n % 64) as u8));
    } else {
        out.push(byte_char((0xf0 + n / 262144) as u8));
        out.push(byte_char((0x80 + (n / 4096) % 64) as u8));
        out.push(byte_char((0x80 + (n / 64) % 64) as u8));
        out.push(byte_char((0x80 + n % 64) as u8));
    }
    assert(final(out)@ =~= old(out)@ + byte_chars(c));
}

/// The name at `i` as `key_at` gives it, with the index of its closing `%`.
fn key_here(s: &Vec<char>, i: usize) -> (r: Option<(Vec<char>, usize)>)
    requires
        i < s.len(),
    ensures
        match key_at(s@, i as int) {
            Some(k) => r matches Some((key, end)) && key@ == k && end == i + k.len() + 1,
            None => r is None,
        },
{
    proof {
        lemma_find_char(s@.skip(i + 1), '%');
    }
    match find_from(s, '%', i + 1) {
        Some(j) => {
            if j > i + 1 {
                Some((sub_chars(s, i + 1, j), j))
            } else {
                None
            }
        },
        None => None,
    }
}

/// The names that `input` refers to with `%NAME%`, one for each `%` that
/// starts a reference: the names whose values `expand_env_vars` may use.
pub fn env_var_keys(input: &str) -> (r: Vec<String>)
    ensures
        strs_view(r@) == keys_from(input@, 0),
{
    let s = str_chars(input);
    let mut r: Vec<String> = Vec::new();
    let mut i: usize = 0;
    while i < s.len()
        invariant
            i <= s@.len(),
            s@ == input@,
            strs_view(r@) + keys_from(s@, i as int) == keys_from(s@, 0),
        decreases s@.len() - i,
    {
        let ghost before = strs_view(r@);
        if s[i] == '%' {
            match key_here(&s, i) {
                Some((key, _end)) => {
                    r.push(string_from_chars(&key));
                    assert(strs_view(r@) =~= before.push(key@));
                    assert(before + keys_from(s@, i as int) =~= strs_view(r@) + keys_from(
                        s@,
                        i + 1,
                    ));
                },
                None => {},
            }
        }
        i = i + 1;
    }
    assert(strs_view(r@) + keys_from(s@, i as int) =~= strs_view(r@));
    r
}

/// The value given for `name` among the looked-up pairs.
fn value_of(vals: &Vec<(String, Option<String>)>, name: &str) -> (r: Option<String>)
    ensures
        opt_chars(r) == env_value(env_view(vals@), name@),
{
    let ghost view = env_view(vals@);
    assert(view.skip(0) =~= view);
    let mut i: usize = 0;
    while i < vals.len()
        invariant
            i <= vals@.len(),
            view == env_view(vals@),
            env_value(view.skip(i as int), name@) == env_value(view, name@),
        decreases vals@.len() - i,
    {
        assert(view.skip(i as int).drop_first() =~= view.skip(i + 1));
        if str_eq(&vals[i].0, name) {
            return vals[i].1.clone();
        }
        i = i + 1;
    }
    None
}

/// Expands the `%NAME%` references of `input` (e.g. `%USERPROFILE%`) with
/// the values looked up for them: `vals` pairs each name with its value, or
/// with `None` where it is not set. A reference whose name has no value is
/// left as it stands. The other text is copied byte by byte, each byte
/// becoming the character with that code.
pub fn expand_env_vars(input: &str, vals: &Vec<(String, Option<String>)>) -> (r: String)
    ensures
        r@ == expand_from(input@, 0, env_view(vals@)),
{
    let s = str_chars(input);
    let ghost e = env_view(vals@);
    let mut out: Vec<char> = Vec::new();
    let mut i: usize = 0;
    while i < s.len()
        invariant
            i <= s@.len(),
            s@ == input@,
            e == env_view(vals@),
            out@ + expand_from(s@, i as int, e) == expand_from(s@, 0, e),
        decreases s@.len() - i,
    {
        let ghost before = out@;
        proof {
            lemma_key_at(s@, i as int);
        }
        if s[i] == '%' {
            if let Some((key, end)) = key_here(&s, i) {
                let name = string_from_chars(&key);
                if let Some(value) = value_of(vals, &name) {
                    let vs = str_chars(&value);
                    let mut k: usize = 0;
                    while k < vs.len()
                        invariant
                            k <= vs@.len(),
                            out@ == before + vs@.take(k as int),
                        decreases vs@.len() - k,
                    {
                        out.push(vs[k]);
                        k = k + 1;
                        assert(out@ =~= before + vs@.take(k as int));
                    }
                    assert(vs@.take(k as int) =~= vs@);
                    assert(before + expand_from(s@, i as int, e) =~= out@ + expand_from(
                        s@,
                        end + 1,
                        e,
                    ));
                    i = end + 1;
                    continue;
                }
            }
        }
        push_byte_chars(&mut out, s[i]);
        assert(before + expand_from(s@, i as int, e) =~= out@ + expand_from(s@, i + 1, e));
        i = i + 1;
    }
    assert(out@ + expand_from(s@, i as int, e) =~= out@);
    string_from_chars(&out)
}

} // verus!
