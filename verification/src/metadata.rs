//! Name matching used to rank online metadata candidates.
//!
//! A name is folded to lowercase and cut into its maximal runs of
//! alphanumeric characters; a run is kept as a token when it is longer than
//! one byte in UTF-8 or is a single ASCII digit. Two names are compared by the
//! sets of their tokens.
use vstd::prelude::*;
use crate::text::{alphanumeric, char_width, utf8_width, chars_eq, cvs_view, is_alphanumeric, lowercase, str_chars, str_lowercase};

verus! {

pub open spec fn is_ascii_digit(c: char) -> bool {
    '0' <= c && c <= '9'
}

/// A run is kept when it is longer than one byte or made of ASCII digits only.
pub open spec fn keep_token(p: Seq<char>) -> bool {
    p.len() > 0 && (utf8_width(p) > 1 || forall|k: int| 0 <= k < p.len() ==> is_ascii_digit(#[trigger] p[k]))
}

/// `s[a..b]` is a maximal run of alphanumeric characters.
pub open spec fn is_run(s: Seq<char>, a: int, b: int) -> bool {
    &&& 0 <= a < b <= s.len()
    &&& forall|k: int| a <= k < b ==> alphanumeric(#[trigger] s[k])
    &&& (a == 0 || !alphanumeric(s[a - 1]))
    &&& (b == s.len() || !alphanumeric(s[b]))
}

/// The kept runs of a (folded) text.
pub open spec fn run_tokens(low: Seq<char>) -> Set<Seq<char>> {
    Set::new(
        |p: Seq<char>|
            keep_token(p) && exists|a: int, b: int| is_run(low, a, b) && p == low.subrange(a, b),
    )
}

/// The token set of a name.
pub open spec fn name_tokens(text: Seq<char>) -> Set<Seq<char>> {
    run_tokens(lowercase(text))
}

fn keep_run(p: &Vec<char>) -> (r: bool)
    ensures
        r == keep_token(p@),
{
    if p.len() == 0 {
        return false;
    }
    if p.len() >= 2 {
        proof {
            crate::text::lemma_width_at_least_len(p@);
        }
        return true;
    }
    let c = p[0];
    proof {
        assert(p@.drop_last().len() == 0);
        assert(utf8_width(p@.drop_last()) == 0);
        assert(utf8_width(p@) == char_width(c));
    }
    if (c as u32) >= 0x80 {
        true
    } else {
        let d = '0' <= c && c <= '9';
        proof {
            if d {
                assert forall|k: int| 0 <= k < p@.len() implies is_ascii_digit(#[trigger] p@[k]) by {
                    assert(k == 0);
                }
            } else {
                assert(!is_ascii_digit(p@[0]));
            }
        }
        d
    }
}

/// Whether `p` is among the tokens already collected.
pub fn holds_token(out: &Vec<Vec<char>>, p: &Vec<char>) -> (r: bool)
    ensures
        r == cvs_view(out@).contains(p@),
{
    let mut i: usize = 0;
    while i < out.len()
        invariant
            i <= out@.len(),
            forall|j: int| 0 <= j < i ==> cvs_view(out@)[j] != p@,
        decreases out@.len() - i,
    {
        if chars_eq(&out[i], p) {
            assert(cvs_view(out@)[i as int] == p@);
            return true;
        }
        i = i + 1;
    }
    false
}

/// Any run ending in `start..=i`, where `s[start..i]` is alphanumeric and
/// bounded on both sides, is exactly `s[start..i]`.
proof fn lemma_only_run(s: Seq<char>, start: int, i: int, a: int, b: int)
    requires
        0 <= start <= i <= s.len(),
        forall|k: int| start <= k < i ==> alphanumeric(#[trigger] s[k]),
        start == 0 || !alphanumeric(s[start - 1]),
        i == s.len() || !alphanumeric(s[i]),
        is_run(s, a, b),
        start <= b <= i,
    ensures
        a == start,
        b == i,
{
    if b < i {
        assert(alphanumeric(s[b]));
    }
    if a < start {
        assert(alphanumeric(s[start - 1]));
    }
    if a > start {
        assert(alphanumeric(s[a - 1]));
    }
}

/// Records the run `s[start..i]` (if nonempty and kept) among the collected
/// tokens, which then cover every run ending at or before `i`.
fn close_run(
    out: &mut Vec<Vec<char>>,
    cur: Vec<char>,
    Ghost(s): Ghost<Seq<char>>,
    Ghost(start): Ghost<int>,
    Ghost(i): Ghost<int>,
)
    requires
        0 <= start <= i <= s.len(),
        cur@ == s.subrange(start, i),
        forall|k: int| start <= k < i ==> alphanumeric(#[trigger] s[k]),
        start == 0 || !alphanumeric(s[start - 1]),
        i == s.len() || !alphanumeric(s[i]),
        cvs_view(old(out)@).no_duplicates(),
        forall|p: Seq<char>|
            #[trigger] cvs_view(old(out)@).contains(p) <==> (keep_token(p) && exists|a: int, b: int|
                is_run(s, a, b) && b < start && p == s.subrange(a, b)),
    ensures
        cvs_view(final(out)@).no_duplicates(),
        forall|p: Seq<char>|
            #[trigger] cvs_view(final(out)@).contains(p) <==> (keep_token(p) && exists|a: int, b: int|
                is_run(s, a, b) && b <= i && p == s.subrange(a, b)),
{
    let ghost before = cvs_view(out@);
    proof {
        assert forall|a: int, b: int| is_run(s, a, b) && start <= b <= i implies a == start && b == i by {
            lemma_only_run(s, start, i, a, b);
        }
        if start < i {
            assert(is_run(s, start, i));
        }
    }
    if keep_run(&cur) && !holds_token(out, &cur) {
        let ghost pv = cur@;
        out.push(cur);
        proof {
            assert(cvs_view(out@) =~= before.push(pv));
            assert forall|j: int, k: int|
                0 <= j < cvs_view(out@).len() && 0 <= k < cvs_view(out@).len() && j != k
                implies cvs_view(out@)[j] != cvs_view(out@)[k] by {
                if j < before.len() && k < before.len() {
                    assert(before[j] != before[k]);
                } else if j < before.len() {
                    assert(before.contains(before[j]));
                } else {
                    assert(before.contains(before[k]));
                }
            }
        }
    }
    proof {
        let after = cvs_view(out@);
        assert forall|p: Seq<char>|
            #[trigger] cvs_view(out@).contains(p) <==> (keep_token(p) && exists|a: int, b: int|
                is_run(s, a, b) && b <= i && p == s.subrange(a, b)) by {
            if after.contains(p) {
                if !before.contains(p) {
                    let j = choose|j: int| 0 <= j < after.len() && after[j] == p;
                    assert(j == before.len());
                    assert(p == s.subrange(start, i));
                    assert(is_run(s, start, i));
                } else {
                    assert(keep_token(p) && exists|a: int, b: int|
                        is_run(s, a, b) && b < start && p == s.subrange(a, b));
                    let (a, b) = choose|a: int, b: int| is_run(s, a, b) && b < start && p == s.subrange(a, b);
                    assert(is_run(s, a, b) && b <= i);
                }
            }
            if keep_token(p) && exists|a: int, b: int| is_run(s, a, b) && b <= i && p == s.subrange(a, b) {
                let (a, b) = choose|a: int, b: int| is_run(s, a, b) && b <= i && p == s.subrange(a, b);
                if b < start {
                    assert(before.contains(p));
                    let j = choose|j: int| 0 <= j < before.len() && before[j] == p;
                    assert(after[j] == p);
                } else {
                    assert(a == start && b == i);
                    if !before.contains(p) {
                        assert(after[before.len() as int] == p);
                    } else {
                        let j = choose|j: int| 0 <= j < before.len() && before[j] == p;
                        assert(after[j] == p);
                    }
                }
            }
        }
    }
}

/// The distinct tokens of a name, in order of first appearance.
pub fn normalize_tokens(text: &str) -> (r: Vec<Vec<char>>)
    ensures
        cvs_view(r@).no_duplicates(),
        cvs_view(r@).to_set() == name_tokens(text@),
{
    let lowered = str_lowercase(text);
    let low = str_chars(lowered.as_str());
    let ghost s = low@;
    let mut out: Vec<Vec<char>> = Vec::new();
    let mut cur: Vec<char> = Vec::new();
    let mut start: usize = 0;
    let mut i: usize = 0;
    while i < low.len()
        invariant
            s == low@,
            s == lowercase(text@),
            start <= i <= s.len(),
            cur@ == s.subrange(start as int, i as int),
            forall|k: int| start <= k < i ==> alphanumeric(#[trigger] s[k]),
            start == 0 || !alphanumeric(s[start - 1]),
            cvs_view(out@).no_duplicates(),
            forall|p: Seq<char>|
                #[trigger] cvs_view(out@).contains(p) <==> (keep_token(p) && exists|a: int, b: int|
                    is_run(s, a, b) && b < start && p == s.subrange(a, b)),
        decreases s.len() - i,
    {
        let c = low[i];
        if is_alphanumeric(c) {
            cur.push(c);
            i = i + 1;
            assert(cur@ =~= s.subrange(start as int, i as int));
        } else {
            close_run(&mut out, cur, Ghost(s), Ghost(start as int), Ghost(i as int));
            cur = Vec::new();
            start = i + 1;
            i = i + 1;
            assert(cur@ =~= s.subrange(start as int, i as int));
        }
    }
    close_run(&mut out, cur, Ghost(s), Ghost(start as int), Ghost(i as int));
    proof {
        assert forall|p: Seq<char>| cvs_view(out@).to_set().contains(p) == name_tokens(text@).contains(p) by {
            assert(cvs_view(out@).to_set().contains(p) == cvs_view(out@).contains(p));
            if name_tokens(text@).contains(p) {
                let (a, b) = choose|a: int, b: int| is_run(s, a, b) && p == s.subrange(a, b);
                assert(is_run(s, a, b) && b <= i && p == s.subrange(a, b));
            }
        }
        assert(cvs_view(out@).to_set() =~= name_tokens(text@));
    }
    out
}

/// How two names' token sets relate.
pub struct TokenOverlap {
    /// Tokens of the query.
    pub query_tokens: usize,
    /// Tokens of the candidate.
    pub candidate_tokens: usize,
    /// Tokens the two have in common.
    pub shared: usize,
    /// Whether the two token sets are equal.
    pub identical: bool,
}

/// Compares the token sets of `query` and `candidate`.
pub fn token_overlap(query: &str, candidate: &str) -> (r: TokenOverlap)
    ensures
        r.query_tokens == name_tokens(query@).len(),
        r.candidate_tokens == name_tokens(candidate@).len(),
        r.shared == name_tokens(query@).intersect(name_tokens(candidate@)).len(),
        r.identical == (name_tokens(query@) == name_tokens(candidate@)),
{
    let q = normalize_tokens(query);
    let c = normalize_tokens(candidate);
    let ghost qs = cvs_view(q@);
    let ghost cs = cvs_view(c@);
    let ghost cset = cs.to_set();
    let mut shared: usize = 0;
    let ghost mut inter: Seq<Seq<char>> = seq![];
    let mut i: usize = 0;
    while i < q.len()
        invariant
            qs == cvs_view(q@),
            cs == cvs_view(c@),
            cset == cs.to_set(),
            qs.no_duplicates(),
            i <= q@.len(),
            shared <= i,
            shared == inter.len(),
            inter.no_duplicates(),
            forall|x: Seq<char>| #[trigger] inter.contains(x) <==> (qs.take(i as int).contains(x) && cset.contains(x)),
        decreases q@.len() - i,
    {
        let ghost x = qs[i as int];
        if holds_token(&c, &q[i]) {
            proof {
                assert(!qs.take(i as int).contains(x)) by {
                    if qs.take(i as int).contains(x) {
                        let j = choose|j: int| 0 <= j < i && qs.take(i as int)[j] == x;
                        assert(qs[j] == qs[i as int]);
                    }
                }
                let old_inter = inter;
                inter = inter.push(x);
                assert forall|a: int, b: int| 0 <= a < inter.len() && 0 <= b < inter.len() && a != b
                    implies inter[a] != inter[b] by {
                    if a < old_inter.len() && b < old_inter.len() {
                        assert(old_inter[a] != old_inter[b]);
                    } else if a < old_inter.len() {
                        assert(old_inter.contains(old_inter[a]));
                    } else {
                        assert(old_inter.contains(old_inter[b]));
                    }
                }
                assert(cs.contains(x));
                assert(cset.contains(x));
                assert(qs.take(i + 1)[i as int] == x);
                assert(qs.take(i + 1).contains(x));
                assert forall|y: Seq<char>| #[trigger] inter.contains(y) <==> (qs.take(i + 1).contains(y) && cset.contains(y)) by {
                    assert(qs.take(i + 1) =~= qs.take(i as int).push(x));
                    if inter.contains(y) {
                        let j = choose|j: int| 0 <= j < inter.len() && inter[j] == y;
                        if j < old_inter.len() {
                            assert(old_inter[j] == y);
                            assert(old_inter.contains(y));
                            assert(qs.take(i as int).contains(y));
                            let k = choose|k: int| 0 <= k < i && qs.take(i as int)[k] == y;
                            assert(qs.take(i + 1)[k] == y);
                        } else {
                            assert(y == x);
                        }
                    }
                    if qs.take(i + 1).contains(y) && cset.contains(y) && y != x {
                        assert(qs.take(i as int).contains(y));
                        assert(old_inter.contains(y));
                        let j = choose|j: int| 0 <= j < old_inter.len() && old_inter[j] == y;
                        assert(inter[j] == y);
                    }
                    if y == x && cset.contains(y) {
                        assert(inter[old_inter.len() as int] == x);
                    }
                }
            }
            shared = shared + 1;
        } else {
            proof {
                assert(!cset.contains(x));
                assert forall|y: Seq<char>| #[trigger] inter.contains(y) <==> (qs.take(i + 1).contains(y) && cset.contains(y)) by {
                    assert(qs.take(i + 1) =~= qs.take(i as int).push(x));
                    if qs.take(i + 1).contains(y) && y != x {
                        let k = choose|k: int| 0 <= k < i + 1 && #[trigger] qs.take(i + 1)[k] == y;
                        assert(qs.take(i as int)[k] == y);
                    }
                    if inter.contains(y) {
                        let k = choose|k: int| 0 <= k < i && qs.take(i as int)[k] == y;
                        assert(qs.take(i + 1)[k] == y);
                    }
                }
            }
        }
        i = i + 1;
    }
    proof {
        assert(qs.take(i as int) =~= qs);
        assert(inter.to_set() =~= qs.to_set().intersect(cset));
        inter.unique_seq_to_set();
        qs.unique_seq_to_set();
        cs.unique_seq_to_set();
    }
    let identical = shared == q.len() && shared == c.len();
    proof {
        let qset = qs.to_set();
        vstd::seq_lib::seq_to_set_is_finite(qs);
        vstd::seq_lib::seq_to_set_is_finite(cs);
        if identical {
            assert(qset.intersect(cset).subset_of(qset));
            assert(qset.intersect(cset).subset_of(cset));
            vstd::set_lib::lemma_subset_equality(qset.intersect(cset), qset);
            vstd::set_lib::lemma_subset_equality(qset.intersect(cset), cset);
        } else {
            if qset == cset {
                assert(qset.intersect(cset) =~= qset);
            }
        }
    }
    TokenOverlap { query_tokens: q.len(), candidate_tokens: c.len(), shared, identical }
}

/// The similarity score of two names, from 0 to 100: 0 when either name has
/// no token, 100 when their token sets are equal, else `rounded` (the share
/// of common tokens as a rounded percentage), at most 100.
pub open spec fn score_of(o: TokenOverlap, rounded: u8) -> u8 {
    if o.query_tokens == 0 || o.candidate_tokens == 0 {
        0
    } else if o.identical {
        100
    } else if rounded > 100 {
        100
    } else {
        rounded
    }
}

/// The similarity score of two names whose token sets relate as `o`;
/// `rounded` is `2 * shared / (query + candidate)` as a percentage, rounded
/// by the caller. Identical non-empty token sets always score 100, and no
/// score exceeds 100.
pub fn similarity_score(o: &TokenOverlap, rounded: u8) -> (r: u8)
    ensures
        r == score_of(*o, rounded),
        r <= 100,
        o.identical && o.query_tokens > 0 && o.candidate_tokens > 0 ==> r == 100,
{
    if o.query_tokens == 0 || o.candidate_tokens == 0 {
        0
    } else if o.identical {
        100
    } else if rounded > 100 {
        100
    } else {
        rounded
    }
}

/// Names that fold to the same lowercase text have the same tokens, so they
/// compare alike against every other name.
pub proof fn lemma_tokens_ignore_case(a: Seq<char>, b: Seq<char>)
    requires
        lowercase(a) == lowercase(b),
    ensures
        name_tokens(a) == name_tokens(b),
{
}

} // verus!
