//! Stable ordering by a key, as `sort_by` on a key comparison does it.
use vstd::prelude::*;

verus! {

/// A key with a total preorder and an executable comparison.
pub trait SortKey: Sized {
    /// `a` sorts no later than `b`.
    spec fn key_le(a: Self, b: Self) -> bool;

    proof fn lemma_total(a: Self, b: Self)
        ensures
            Self::key_le(a, b) || Self::key_le(b, a),
    ;

    proof fn lemma_trans(a: Self, b: Self, c: Self)
        requires
            Self::key_le(a, b),
            Self::key_le(b, c),
        ensures
            Self::key_le(a, c),
    ;

    fn le(&self, other: &Self) -> (r: bool)
        ensures
            r == Self::key_le(*self, *other),
    ;
}

impl SortKey for u128 {
    open spec fn key_le(a: u128, b: u128) -> bool {
        a <= b
    }

    proof fn lemma_total(a: u128, b: u128) {
    }

    proof fn lemma_trans(a: u128, b: u128, c: u128) {
    }

    fn le(&self, other: &u128) -> (r: bool) {
        *self <= *other
    }
}

impl SortKey for i64 {
    open spec fn key_le(a: i64, b: i64) -> bool {
        a <= b
    }

    proof fn lemma_total(a: i64, b: i64) {
    }

    proof fn lemma_trans(a: i64, b: i64, c: i64) {
    }

    fn le(&self, other: &i64) -> (r: bool) {
        *self <= *other
    }
}

impl SortKey for i128 {
    open spec fn key_le(a: i128, b: i128) -> bool {
        a <= b
    }

    proof fn lemma_total(a: i128, b: i128) {
    }

    proof fn lemma_trans(a: i128, b: i128, c: i128) {
    }

    fn le(&self, other: &i128) -> (r: bool) {
        *self <= *other
    }
}

/// Lexicographic order of character sequences by code point, which is the
/// order of their UTF-8 bytes (`String`'s `Ord`).
pub open spec fn text_le(a: Seq<char>, b: Seq<char>) -> bool
    decreases a.len(),
{
    if a.len() == 0 {
        true
    } else if b.len() == 0 {
        false
    } else if a[0] < b[0] {
        true
    } else if a[0] > b[0] {
        false
    } else {
        text_le(a.drop_first(), b.drop_first())
    }
}

pub proof fn lemma_text_total(a: Seq<char>, b: Seq<char>)
    ensures
        text_le(a, b) || text_le(b, a),
    decreases a.len(),
{
    if a.len() > 0 && b.len() > 0 && a[0] == b[0] {
        lemma_text_total(a.drop_first(), b.drop_first());
    }
}

pub proof fn lemma_text_trans(a: Seq<char>, b: Seq<char>, c: Seq<char>)
    requires
        text_le(a, b),
        text_le(b, c),
    ensures
        text_le(a, c),
    decreases a.len(),
{
    if a.len() > 0 && b.len() > 0 && c.len() > 0 && a[0] == b[0] && b[0] == c[0] {
        lemma_text_trans(a.drop_first(), b.drop_first(), c.drop_first());
    }
}

pub proof fn lemma_text_antisym(a: Seq<char>, b: Seq<char>)
    requires
        text_le(a, b),
        text_le(b, a),
    ensures
        a == b,
    decreases a.len(),
{
    if a.len() > 0 && b.len() > 0 {
        lemma_text_antisym(a.drop_first(), b.drop_first());
        assert(a =~= seq![a[0]] + a.drop_first());
        assert(b =~= seq![b[0]] + b.drop_first());
    }
}

impl SortKey for Vec<char> {
    open spec fn key_le(a: Vec<char>, b: Vec<char>) -> bool {
        text_le(a@, b@)
    }

    proof fn lemma_total(a: Vec<char>, b: Vec<char>) {
        lemma_text_total(a@, b@);
    }

    proof fn lemma_trans(a: Vec<char>, b: Vec<char>, c: Vec<char>) {
        lemma_text_trans(a@, b@, c@);
    }

    fn le(&self, other: &Vec<char>) -> (r: bool) {
        let mut i: usize = 0;
        assert(self@.skip(0) =~= self@);
        assert(other@.skip(0) =~= other@);
        while i < self.len() && i < other.len()
            invariant
                i <= self@.len(),
                i <= other@.len(),
                forall|k: int| 0 <= k < i ==> self@[k] == other@[k],
                text_le(self@, other@) == text_le(self@.skip(i as int), other@.skip(i as int)),
            decreases self@.len() - i,
        {
            let x = self[i];
            let y = other[i];
            let ghost sa = self@.skip(i as int);
            let ghost sb = other@.skip(i as int);
            assert(sa[0] == x && sb[0] == y);
            if x < y {
                return true;
            }
            if x > y {
                return false;
            }
            assert(sa.drop_first() =~= self@.skip(i + 1));
            assert(sb.drop_first() =~= other@.skip(i + 1));
            i = i + 1;
        }
        i == self.len()
    }
}

/// `a` goes before or with `b` in the chosen direction.
pub open spec fn precedes<K: SortKey>(a: K, b: K, descending: bool) -> bool {
    if descending {
        K::key_le(b, a)
    } else {
        K::key_le(a, b)
    }
}

/// `order` lists each index of `keys` once.
pub open spec fn is_permutation(order: Seq<usize>, n: nat) -> bool {
    &&& order.len() == n
    &&& forall|i: int| 0 <= i < order.len() ==> order[i] < n
    &&& forall|i: int, j: int| 0 <= i < j < order.len() ==> order[i] != order[j]
}

/// `order` visits `keys` in the chosen direction, keeping equal keys in
/// their original order: what a stable sort by that comparison gives.
pub open spec fn stably_sorted<K: SortKey>(keys: Seq<K>, order: Seq<usize>, descending: bool) -> bool {
    &&& is_permutation(order, keys.len())
    &&& forall|i: int, j: int|
        0 <= i < j < order.len() ==> precedes(keys[order[i] as int], keys[order[j] as int], descending)
    &&& forall|i: int, j: int|
        0 <= i < j < order.len() && precedes(keys[order[j] as int], keys[order[i] as int], descending)
            ==> order[i] < order[j]
}

proof fn lemma_precedes_total<K: SortKey>(a: K, b: K, descending: bool)
    ensures
        precedes(a, b, descending) || precedes(b, a, descending),
{
    K::lemma_total(a, b);
}

proof fn lemma_precedes_trans<K: SortKey>(a: K, b: K, c: K, descending: bool)
    requires
        precedes(a, b, descending),
        precedes(b, c, descending),
    ensures
        precedes(a, c, descending),
{
    if descending {
        K::lemma_trans(c, b, a);
    } else {
        K::lemma_trans(a, b, c);
    }
}

fn goes_before<K: SortKey>(a: &K, b: &K, descending: bool) -> (r: bool)
    ensures
        r == precedes(*a, *b, descending),
{
    if descending {
        b.le(a)
    } else {
        a.le(b)
    }
}

/// The order in which a stable sort puts `keys`, ascending or descending.
pub fn stable_order<K: SortKey>(keys: &Vec<K>, descending: bool) -> (r: Vec<usize>)
    ensures
        stably_sorted(keys@, r@, descending),
{
    let ghost ks = keys@;
    let mut order: Vec<usize> = Vec::new();
    let mut k: usize = 0;
    while k < keys.len()
        invariant
            ks == keys@,
            k <= ks.len(),
            is_permutation(order@, k as nat),
            forall|i: int, j: int|
                0 <= i < j < order@.len() ==> precedes(ks[order@[i] as int], ks[order@[j] as int], descending),
            forall|i: int, j: int|
                0 <= i < j < order@.len() && precedes(ks[order@[j] as int], ks[order@[i] as int], descending)
                    ==> order@[i] < order@[j],
        decreases ks.len() - k,
    {
        let mut j = order.len();
        while j > 0 && !goes_before(&keys[order[j - 1]], &keys[k], descending)
            invariant
                ks == keys@,
                k < ks.len(),
                j <= order@.len(),
                order@.len() == k,
                forall|i: int| 0 <= i < order@.len() ==> order@[i] < k,
                forall|t: int| j <= t < order@.len() ==> !precedes(ks[order@[t] as int], ks[k as int], descending),
            decreases j,
        {
            j = j - 1;
        }
        let ghost old_order = order@;
        proof {
            if j > 0 {
                assert(precedes(ks[old_order[j - 1] as int], ks[k as int], descending));
            }
        }
        order.insert(j, k);
        proof {
            let o = order@;
            assert(o == old_order.insert(j as int, k));
            assert forall|a: int| 0 <= a < o.len() implies o[a] < k + 1 by {
                if a > j {
                    assert(o[a] == old_order[a - 1]);
                }
            }
            assert forall|a: int, b: int| 0 <= a < b < o.len() implies o[a] != o[b] by {
                if a < j && b < j {
                } else if a < j && b == j {
                } else if a < j {
                    assert(o[b] == old_order[b - 1]);
                } else if a == j {
                    assert(o[b] == old_order[b - 1]);
                } else {
                    assert(o[a] == old_order[a - 1]);
                    assert(o[b] == old_order[b - 1]);
                }
            }
            assert forall|a: int, b: int| 0 <= a < b < o.len() implies precedes(
                ks[o[a] as int],
                ks[o[b] as int],
                descending,
            ) && (precedes(ks[o[b] as int], ks[o[a] as int], descending) ==> o[a] < o[b]) by {
                if b < j {
                } else if b == j {
                    if a < j - 1 {
                        lemma_precedes_trans(
                            ks[old_order[a] as int],
                            ks[old_order[j - 1] as int],
                            ks[k as int],
                            descending,
                        );
                    }
                } else if a == j {
                    assert(o[b] == old_order[b - 1]);
                    lemma_precedes_total(ks[k as int], ks[o[b] as int], descending);
                } else if a < j {
                    assert(o[b] == old_order[b - 1]);
                } else {
                    assert(o[a] == old_order[a - 1]);
                    assert(o[b] == old_order[b - 1]);
                }
            }
        }
        k = k + 1;
    }
    order
}

/// The items of `v` in the order `order` lists their indices.
pub open spec fn arranged<T>(v: Seq<T>, order: Seq<usize>) -> Seq<T> {
    order.map_values(|k: usize| v[k as int])
}

/// Moves the items of `v` into the order `order` gives, without copying them.
pub fn permute<T>(v: Vec<T>, order: &Vec<usize>) -> (r: Vec<T>)
    requires
        is_permutation(order@, v@.len()),
    ensures
        r@ == arranged(v@, order@),
{
    let ghost orig = v@;
    let n = v.len();
    let mut v = v;
    let mut slots: Vec<Option<T>> = Vec::new();
    while v.len() > 0
        invariant
            v@.len() + slots@.len() == n,
            n == orig.len(),
            v@ == orig.take(v@.len() as int),
            forall|i: int| 0 <= i < slots@.len() ==> slots@[i] == Some(orig[n - 1 - i]),
        decreases v@.len(),
    {
        let x = v.pop().unwrap();
        slots.push(Some(x));
        assert(v@ =~= orig.take(v@.len() as int));
    }
    let mut r: Vec<T> = Vec::new();
    let mut j: usize = 0;
    while j < order.len()
        invariant
            n == orig.len(),
            slots@.len() == n,
            is_permutation(order@, n as nat),
            j <= order@.len(),
            r@.len() == j,
            forall|i: int| 0 <= i < j ==> r@[i] == orig[order@[i] as int],
            forall|k: int| 0 <= k < n ==> (slots@[n - 1 - k] == Some(orig[k])
                || exists|i: int| 0 <= i < j && order@[i] == k),
        decreases order@.len() - j,
    {
        let k = order[j];
        assert(slots@[n - 1 - k] == Some(orig[k as int])) by {
            if exists|i: int| 0 <= i < j && order@[i] == k {
                let i = choose|i: int| 0 <= i < j && order@[i] == k;
                assert(order@[i] != order@[j as int]);
            }
        }
        let mut taken: Option<T> = None;
        std::mem::swap(&mut slots[n - 1 - k], &mut taken);
        let x = taken.unwrap();
        r.push(x);
        proof {
            assert forall|kk: int| 0 <= kk < n implies (slots@[n - 1 - kk] == Some(orig[kk])
                || exists|i: int| 0 <= i < j + 1 && order@[i] == kk) by {
                if kk == k {
                    assert(order@[j as int] == kk);
                } else if !(exists|i: int| 0 <= i < j && order@[i] == kk) {
                    assert(slots@[n - 1 - kk] == Some(orig[kk]));
                } else {
                    let i = choose|i: int| 0 <= i < j && order@[i] == kk;
                    assert(0 <= i < j + 1 && order@[i] == kk);
                }
            }
        }
        j = j + 1;
    }
    assert(r@ =~= arranged(orig, order@));
    r
}

/// `a` goes before or with `b` in text order, in the chosen direction.
pub open spec fn text_precedes(a: Seq<char>, b: Seq<char>, descending: bool) -> bool {
    if descending {
        text_le(b, a)
    } else {
        text_le(a, b)
    }
}

/// [`stably_sorted`] for text keys given as character sequences.
pub open spec fn text_stably_sorted(keys: Seq<Seq<char>>, order: Seq<usize>, descending: bool) -> bool {
    &&& is_permutation(order, keys.len())
    &&& forall|i: int, j: int|
        0 <= i < j < order.len() ==> text_precedes(keys[order[i] as int], keys[order[j] as int], descending)
    &&& forall|i: int, j: int|
        0 <= i < j < order.len() && text_precedes(keys[order[j] as int], keys[order[i] as int], descending)
            ==> order[i] < order[j]
}

/// The order in which a stable sort puts text keys.
pub fn stable_text_order(keys: &Vec<Vec<char>>, descending: bool) -> (r: Vec<usize>)
    ensures
        text_stably_sorted(keys@.map_values(|k: Vec<char>| k@), r@, descending),
{
    let r = stable_order(keys, descending);
    let ghost kv = keys@.map_values(|k: Vec<char>| k@);
    let ghost o = r@;
    let ghost ks = keys@;
    assert forall|i: int| 0 <= i < ks.len() implies #[trigger] kv[i] == ks[i]@ by {}
    assert forall|i: int, j: int| 0 <= i < j < o.len() implies text_precedes(
        kv[o[i] as int],
        kv[o[j] as int],
        descending,
    ) by {
        assert(precedes(ks[o[i] as int], ks[o[j] as int], descending));
        assert(kv[o[i] as int] == ks[o[i] as int]@);
        assert(kv[o[j] as int] == ks[o[j] as int]@);
    }
    assert forall|i: int, j: int|
        0 <= i < j < o.len() && text_precedes(kv[o[j] as int], kv[o[i] as int], descending) implies o[i]
        < o[j] by {
        assert(kv[o[i] as int] == ks[o[i] as int]@);
        assert(kv[o[j] as int] == ks[o[j] as int]@);
        assert(precedes(ks[o[j] as int], ks[o[i] as int], descending));
    }
    r
}

/// Every index below `n` appears in a permutation of `0..n` (by
/// pigeonhole: `n` distinct indices below `n` that missed one would fit in
/// `n - 1` places).
pub proof fn lemma_permutation_covers(order: Seq<usize>, n: nat, j: int)
    requires
        is_permutation(order, n),
        0 <= j < n,
    ensures
        exists|k: int| 0 <= k < order.len() && order[k] == j,
{
    if !(exists|k: int| 0 <= k < order.len() && order[k] == j) {
        let m = order.map_values(|x: usize| x as int);
        let img = m.to_set();
        assert forall|x: int| #[trigger] img.contains(x) implies 0 <= x < n && x != j by {
            let k = choose|k: int| 0 <= k < m.len() && m[k] == x;
            assert(order[k] as int == x);
        }
        assert(m.no_duplicates()) by {
            assert forall|a: int, b: int| 0 <= a < m.len() && 0 <= b < m.len() && a != b implies m[a] != m[b] by {
                if a < b {
                    assert(order[a] != order[b]);
                } else {
                    assert(order[b] != order[a]);
                }
            }
        }
        m.unique_seq_to_set();
        vstd::set_lib::lemma_int_range(0, n as int);
        let range = vstd::set_lib::set_int_range(0, n as int);
        let full = range.remove(j);
        assert(img.subset_of(full));
        vstd::set_lib::lemma_len_subset(img, full);
        assert(false);
    }
}

/// The items of `v` in reverse order, moved.
pub fn reversed<T>(v: Vec<T>) -> (r: Vec<T>)
    ensures
        r@ == v@.reverse(),
{
    let ghost orig = v@;
    let mut rest = v;
    let mut out: Vec<T> = Vec::new();
    while rest.len() > 0
        invariant
            rest@ + out@.reverse() == orig,
        decreases rest@.len(),
    {
        let x = rest.pop().unwrap();
        out.push(x);
        assert(rest@ + out@.reverse() =~= orig);
    }
    assert(out@.reverse() =~= orig);
    assert(out@ =~= orig.reverse());
    out
}

} // verus!
