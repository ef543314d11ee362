//! The font families offered for a game's title, read from what the
//! system's font tools print.
use vstd::prelude::*;
use crate::sort::{arranged, lemma_text_antisym, lemma_text_total, permute, stable_text_order, text_le, text_stably_sorted};
use crate::text::{strs_view, cvs_view, lines, split_all, split_lines, split_on, str_chars, string_from_chars, trim_chars, trimmed};

verus! {

/// Families always offered on Linux.
pub open spec fn fallback_families() -> Seq<Seq<char>> {
    seq!["Ubuntu"@, "DejaVu Sans"@, "Liberation Sans"@, "Noto Sans"@, "Roboto"@]
}

/// All comma-separated pieces of `s`.
pub open spec fn commas(s: Seq<char>) -> Seq<Seq<char>> {
    split_all(s, ',')
}

/// The trimmed, non-empty pieces of the lines `ls`, each line split at its
/// commas, in order.
pub open spec fn family_pieces(ls: Seq<Seq<char>>) -> Seq<Seq<char>>
    decreases ls.len(),
{
    if ls.len() == 0 {
        Seq::empty()
    } else {
        family_pieces(ls.drop_last()) + nonblank(commas(ls.last()))
    }
}

/// The trimmed, non-empty items of `ps`, in order.
pub open spec fn nonblank(ps: Seq<Seq<char>>) -> Seq<Seq<char>>
    decreases ps.len(),
{
    if ps.len() == 0 {
        Seq::empty()
    } else {
        let rest = nonblank(ps.drop_last());
        let t = trimmed(ps.last());
        if t.len() > 0 {
            rest.push(t)
        } else {
            rest
        }
    }
}

/// `r` is in strictly increasing text order.
pub open spec fn strictly_sorted(r: Seq<Seq<char>>) -> bool {
    forall|i: int, j: int| 0 <= i < j < r.len() ==> text_le(r[i], r[j]) && r[i] != r[j]
}

/// `r` is in increasing text order.
pub open spec fn sorted_text(r: Seq<Seq<char>>) -> bool {
    forall|i: int, j: int| 0 <= i < j < r.len() ==> text_le(r[i], r[j])
}

fn push_nonblank(out: &mut Vec<Vec<char>>, pieces: &Vec<Vec<char>>)
    ensures
        cvs_view(final(out)@) == cvs_view(old(out)@) + nonblank(cvs_view(pieces@)),
{
    let ghost start = cvs_view(out@);
    let ghost pv = cvs_view(pieces@);
    let mut i: usize = 0;
    assert(start + nonblank(pv.take(0)) =~= start);
    while i < pieces.len()
        invariant
            pv == cvs_view(pieces@),
            i <= pieces@.len(),
            cvs_view(out@) == start + nonblank(pv.take(i as int)),
        decreases pieces@.len() - i,
    {
        assert(pv.take(i + 1).drop_last() =~= pv.take(i as int));
        assert(pv.take(i + 1).last() == pieces@[i as int]@);
        let t = trim_chars(&pieces[i]);
        let ghost before = cvs_view(out@);
        if t.len() > 0 {
            out.push(t);
            assert(cvs_view(out@) =~= before.push(trimmed(pieces@[i as int]@)));
        }
        i = i + 1;
        assert(cvs_view(out@) =~= start + nonblank(pv.take(i as int)));
    }
    assert(pv.take(i as int) =~= pv);
}

fn pieces_of(text: &str) -> (r: Vec<Vec<char>>)
    ensures
        cvs_view(r@) == family_pieces(lines(text@)),
{
    let ls = split_lines(&str_chars(text));
    let ghost lv = cvs_view(ls@);
    let mut out: Vec<Vec<char>> = Vec::new();
    let mut i: usize = 0;
    while i < ls.len()
        invariant
            lv == cvs_view(ls@),
            lv == lines(text@),
            i <= ls@.len(),
            cvs_view(out@) == family_pieces(lv.take(i as int)),
        decreases ls@.len() - i,
    {
        assert(lv.take(i + 1).drop_last() =~= lv.take(i as int));
        assert(lv.take(i + 1).last() == ls@[i as int]@);
        let parts = split_on(&ls[i], ',');
        push_nonblank(&mut out, &parts);
        i = i + 1;
    }
    assert(lv.take(i as int) =~= lv);
    out
}

proof fn lemma_strict_pair(r: Seq<Seq<char>>, i: int, j: int)
    requires
        strictly_sorted(r),
        0 <= i < j < r.len(),
    ensures
        text_le(r[i], r[j]) && r[i] != r[j],
{
}

proof fn lemma_text_refl(a: Seq<char>)
    ensures
        text_le(a, a),
    decreases a.len(),
{
    if a.len() > 0 {
        lemma_text_refl(a.drop_first());
    }
}

/// Adds `t` to the strictly sorted `r` unless it is already there.
fn insert_unique(r: &mut Vec<Vec<char>>, t: Vec<char>)
    requires
        strictly_sorted(cvs_view(old(r)@)),
    ensures
        strictly_sorted(cvs_view(final(r)@)),
        forall|x: Seq<char>| #[trigger] cvs_view(final(r)@).contains(x) <==> (cvs_view(old(r)@).contains(x) || x == t@),
{
    let ghost rv = cvs_view(r@);
    let mut k: usize = 0;
    while k < r.len() && !crate::sort::SortKey::le(&t, &r[k])
        invariant
            rv == cvs_view(r@),
            k <= r@.len(),
            forall|m: int| 0 <= m < k ==> !text_le(t@, #[trigger] rv[m]),
        decreases r@.len() - k,
    {
        assert(rv[k as int] == r@[k as int]@);
        k = k + 1;
    }
    let ghost tv = t@;
    if k < r.len() {
        assert(rv[k as int] == r@[k as int]@);
        if crate::text::chars_eq(&r[k], &t) {
            assert(rv.contains(t@));
            return;
        }
    }
    let ghost at_k_ge = k < rv.len() ==> (text_le(tv, rv[k as int]) && rv[k as int] != tv);
    assert(at_k_ge);
    r.insert(k, t);
    proof {
        let nv = cvs_view(r@);
        assert(nv =~= rv.insert(k as int, tv));
        lemma_text_refl(tv);
        assert forall|a: int, b: int| 0 <= a < b < nv.len() implies text_le(nv[a], nv[b]) && nv[a] != nv[b] by {
            if b < k {
                assert(nv[a] == rv[a] && nv[b] == rv[b]);
            } else if b == k {
                assert(nv[a] == rv[a] && nv[b] == tv);
                assert(!text_le(tv, rv[a]));
                lemma_text_total(tv, rv[a]);
            } else if a == k {
                assert(nv[a] == tv && nv[b] == rv[b - 1]);
                let x = rv[b - 1];
                if b - 1 > k {
                    assert(text_le(rv[k as int], x) && rv[k as int] != x);
                    crate::sort::lemma_text_trans(tv, rv[k as int], x);
                    if tv == x {
                        lemma_text_antisym(rv[k as int], tv);
                    }
                }
            } else if a < k {
                assert(nv[a] == rv[a] && nv[b] == rv[b - 1]);
                lemma_strict_pair(rv, a, b - 1);
            } else {
                assert(nv[a] == rv[a - 1] && nv[b] == rv[b - 1]);
                lemma_strict_pair(rv, a - 1, b - 1);
            }
        }
        assert forall|x: Seq<char>| #[trigger] nv.contains(x) <==> (rv.contains(x) || x == tv) by {
            if nv.contains(x) {
                let i = choose|i: int| 0 <= i < nv.len() && nv[i] == x;
                if i < k {
                    assert(rv[i] == x);
                } else if i > k {
                    assert(rv[i - 1] == x);
                }
            }
            if rv.contains(x) {
                let i = choose|i: int| 0 <= i < rv.len() && rv[i] == x;
                if i < k {
                    assert(nv[i] == x);
                } else {
                    assert(nv[i + 1] == x);
                }
            }
            if x == tv {
                assert(nv[k as int] == x);
            }
        }
    }
}

/// The font families offered on Linux: every trimmed, non-empty
/// comma-separated piece of `fc-list`'s output lines, with the fallback
/// families, each once, sorted.
pub fn linux_fonts(stdout: &str) -> (r: Vec<String>)
    ensures
        strictly_sorted(strs_view(r@)),
        forall|t: Seq<char>|
            #[trigger] strs_view(r@).contains(t) <==> (family_pieces(lines(stdout@)).contains(t)
                || fallback_families().contains(t)),
{
    let mut all = pieces_of(stdout);
    all.push(str_chars("Ubuntu"));
    all.push(str_chars("DejaVu Sans"));
    all.push(str_chars("Liberation Sans"));
    all.push(str_chars("Noto Sans"));
    all.push(str_chars("Roboto"));
    let ghost everything = cvs_view(all@);
    assert(everything =~= family_pieces(lines(stdout@)) + fallback_families());
    let mut set: Vec<Vec<char>> = Vec::new();
    let mut i: usize = 0;
    while i < all.len()
        invariant
            i <= all@.len(),
            everything == cvs_view(all@),
            strictly_sorted(cvs_view(set@)),
            forall|x: Seq<char>| #[trigger] cvs_view(set@).contains(x) <==> everything.take(i as int).contains(x),
        decreases all@.len() - i,
    {
        let t = crate::text::sub_chars(&all[i], 0, all[i].len());
        assert(t@ =~= everything[i as int]);
        let ghost before = cvs_view(set@);
        insert_unique(&mut set, t);
        let ghost after = cvs_view(set@);
        proof {
            assert(everything.take(i + 1) =~= everything.take(i as int).push(everything[i as int]));
            assert forall|x: Seq<char>| everything.take(i + 1).contains(x) <==> (everything.take(i as int).contains(x)
                || x == everything[i as int]) by {
                let a = everything.take(i as int);
                let b = everything.take(i + 1);
                if b.contains(x) {
                    let j = choose|j: int| 0 <= j < b.len() && b[j] == x;
                    if j < i {
                        assert(a[j] == x);
                    }
                }
                if a.contains(x) {
                    let j = choose|j: int| 0 <= j < a.len() && a[j] == x;
                    assert(b[j] == x);
                }
                if x == everything[i as int] {
                    assert(b[i as int] == x);
                }
            }
            assert forall|x: Seq<char>| #[trigger] after.contains(x) <==> everything.take(i + 1).contains(x) by {
                assert(after.contains(x) <==> (before.contains(x) || x == everything[i as int]));
            }
        }
        i = i + 1;
    }
    assert(everything.take(i as int) =~= everything);
    let mut r: Vec<String> = Vec::new();
    let mut k: usize = 0;
    while k < set.len()
        invariant
            k <= set@.len(),
            strs_view(r@) == cvs_view(set@).take(k as int),
        decreases set@.len() - k,
    {
        let ghost before = strs_view(r@);
        r.push(string_from_chars(&set[k]));
        assert(cvs_view(set@)[k as int] == set@[k as int]@);
        assert(strs_view(r@) =~= before.push(set@[k as int]@));
        k = k + 1;
        assert(strs_view(r@) =~= cvs_view(set@).take(k as int));
    }
    assert(cvs_view(set@).take(k as int) =~= cvs_view(set@));
    proof {
        let ev = everything;
        assert forall|t: Seq<char>| ev.contains(t) <==> (family_pieces(lines(stdout@)).contains(t)
            || fallback_families().contains(t)) by {
            let fp = family_pieces(lines(stdout@));
            if ev.contains(t) {
                let j = choose|j: int| 0 <= j < ev.len() && ev[j] == t;
                if j < fp.len() {
                    assert(fp[j] == t);
                } else {
                    assert(fallback_families()[j - fp.len()] == t);
                }
            }
            if fp.contains(t) {
                let j = choose|j: int| 0 <= j < fp.len() && fp[j] == t;
                assert(ev[j] == t);
            }
            if fallback_families().contains(t) {
                let j = choose|j: int| 0 <= j < fallback_families().len() && fallback_families()[j] == t;
                assert(ev[j + fp.len()] == t);
            }
        }
    }
    r
}

/// The font families offered on Windows: the trimmed, non-empty lines of the
/// PowerShell listing, sorted (duplicates kept); `Arial` alone when there are
/// none.
pub fn windows_fonts(stdout: &str) -> (r: Vec<String>)
    ensures
        nonblank(lines(stdout@)).len() == 0 ==> strs_view(r@) == seq!["Arial"@],
        nonblank(lines(stdout@)).len() > 0 ==> exists|order: Seq<usize>|
            #![trigger arranged(nonblank(lines(stdout@)), order)]
            text_stably_sorted(nonblank(lines(stdout@)), order, false) && strs_view(r@)
                == arranged(nonblank(lines(stdout@)), order),
{
    let ls = split_lines(&str_chars(stdout));
    let mut items: Vec<Vec<char>> = Vec::new();
    push_nonblank(&mut items, &ls);
    let ghost iv = cvs_view(items@);
    assert(iv =~= nonblank(lines(stdout@)));
    if items.len() == 0 {
        let mut r: Vec<String> = Vec::new();
        r.push("Arial".to_owned());
        proof {
            reveal_strlit("Arial");
        }
        assert(strs_view(r@) =~= seq!["Arial"@]);
        return r;
    }
    let ghost before = items@;
    let order = stable_text_order(&items, false);
    assert(items@.map_values(|k: Vec<char>| k@) =~= iv);
    let sorted = permute(items, &order);
    let mut r: Vec<String> = Vec::new();
    let mut i: usize = 0;
    while i < sorted.len()
        invariant
            i <= sorted@.len(),
            r@.len() == i,
            forall|k: int| 0 <= k < i ==> (#[trigger] r@[k])@ == sorted@[k]@,
        decreases sorted@.len() - i,
    {
        r.push(string_from_chars(&sorted[i]));
        i = i + 1;
    }
    proof {
        let o = order@;
        let w = arranged(iv, o);
        assert forall|k: int| 0 <= k < r@.len() implies strs_view(r@)[k] == arranged(iv, o)[k] by {
            assert(sorted@[k] == before[o[k] as int]);
            assert(iv[o[k] as int] == before[o[k] as int]@);
        }
        assert(strs_view(r@) =~= arranged(iv, o));
    }
    r
}

} // verus!
