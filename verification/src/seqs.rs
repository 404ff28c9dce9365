//! Sequence helpers shared by the ledger tables.
use vstd::prelude::*;

verus! {

/// Index of the first element of `s` satisfying `p`, if any.
pub open spec fn first_match<T>(s: Seq<T>, p: spec_fn(T) -> bool) -> Option<int>
    decreases s.len(),
{
    if s.len() == 0 {
        None
    } else if p(s[0]) {
        Some(0)
    } else {
        match first_match(s.drop_first(), p) {
            Some(k) => Some(k + 1),
            None => None,
        }
    }
}

/// `first_match` is the least index that satisfies the predicate.
pub proof fn lemma_first_match<T>(s: Seq<T>, p: spec_fn(T) -> bool)
    ensures
        match first_match(s, p) {
            Some(i) => 0 <= i < s.len() && p(s[i]) && forall|j: int| 0 <= j < i ==> !p(#[trigger] s[j]),
            None => forall|j: int| 0 <= j < s.len() ==> !p(#[trigger] s[j]),
        },
    decreases s.len(),
{
    if s.len() > 0 && !p(s[0]) {
        lemma_first_match(s.drop_first(), p);
        match first_match(s.drop_first(), p) {
            Some(k) => {
                assert forall|j: int| 0 <= j < k + 1 implies !p(#[trigger] s[j]) by {
                    if j > 0 {
                        assert(s[j] == s.drop_first()[j - 1]);
                    }
                }
            },
            None => {
                assert forall|j: int| 0 <= j < s.len() implies !p(#[trigger] s[j]) by {
                    if j > 0 {
                        assert(s[j] == s.drop_first()[j - 1]);
                    }
                }
            },
        }
    }
}

/// Characterises `first_match` from a witness index.
pub proof fn lemma_first_match_at<T>(s: Seq<T>, p: spec_fn(T) -> bool, i: int)
    requires
        0 <= i < s.len(),
        p(s[i]),
        forall|j: int| 0 <= j < i ==> !p(#[trigger] s[j]),
    ensures
        first_match(s, p) == Some(i),
{
    lemma_first_match(s, p);
    match first_match(s, p) {
        Some(k) => {
            if k < i {
                assert(!p(s[k]));
            } else if k > i {
                assert(!p(s[i]));
            }
        },
        None => {
            assert(!p(s[i]));
        },
    }
}

/// Characterises `first_match` when nothing matches.
pub proof fn lemma_first_match_none<T>(s: Seq<T>, p: spec_fn(T) -> bool)
    requires
        forall|j: int| 0 <= j < s.len() ==> !p(#[trigger] s[j]),
    ensures
        first_match(s, p) is None,
{
    lemma_first_match(s, p);
    if let Some(k) = first_match(s, p) {
        assert(!p(s[k]));
    }
}

/// Removes, in order, every element of `v` that fails `keep`, given the
/// verdict of `keep` for each element in `flags`.
pub fn retain_flagged<T>(v: &mut Vec<T>, flags: &Vec<bool>, Ghost(keep): Ghost<spec_fn(T) -> bool>)
    requires
        flags@.len() == old(v)@.len(),
        forall|i: int| 0 <= i < flags@.len() ==> flags@[i] == keep(#[trigger] old(v)@[i]),
    ensures
        final(v)@ == old(v)@.filter(keep),
{
    let ghost orig = v@;
    let n = v.len();
    let mut rest: Vec<T> = Vec::new();
    std::mem::swap(v, &mut rest);
    let mut k: usize = 0;
    proof {
        reveal_with_fuel(Seq::<_>::filter, 1);
        assert(orig.take(0) =~= Seq::<T>::empty());
    }
    while rest.len() > 0
        invariant
            flags@.len() == orig.len(),
            forall|i: int| 0 <= i < flags@.len() ==> flags@[i] == keep(#[trigger] orig[i]),
            k <= orig.len(),
            rest@ == orig.skip(k as int),
            rest@.len() + k == orig.len(),
            orig.len() == n,
            v@ == orig.take(k as int).filter(keep),
        decreases rest@.len(),
    {
        let item = rest.remove(0);
        proof {
            assert(item == orig[k as int]);
            assert(orig.take(k + 1).drop_last() =~= orig.take(k as int));
            reveal_with_fuel(Seq::<_>::filter, 1);
            assert(rest@ =~= orig.skip(k + 1));
        }
        if flags[k] {
            v.push(item);
        }
        k = k + 1;
    }
    proof {
        assert(orig.take(k as int) =~= orig);
    }
}

} // verus!

verus! {

/// Filtering keeps every ordered pair related by `r`.
pub proof fn lemma_filter_pairwise<T>(s: Seq<T>, p: spec_fn(T) -> bool, r: spec_fn(T, T) -> bool)
    requires
        forall|i: int, j: int| 0 <= i < j < s.len() ==> r(#[trigger] s[i], #[trigger] s[j]),
    ensures
        forall|i: int, j: int|
            0 <= i < j < s.filter(p).len() ==> r(#[trigger] s.filter(p)[i], #[trigger] s.filter(p)[j]),
    decreases s.len(),
{
    reveal_with_fuel(Seq::<_>::filter, 1);
    if s.len() > 0 {
        let d = s.drop_last();
        assert forall|i: int, j: int| 0 <= i < j < d.len() implies r(#[trigger] d[i], #[trigger] d[j]) by {
            assert(d[i] == s[i] && d[j] == s[j]);
        }
        lemma_filter_pairwise(d, p, r);
        let f = s.filter(p);
        let fd = d.filter(p);
        if p(s.last()) {
            assert forall|i: int, j: int| 0 <= i < j < f.len() implies r(#[trigger] f[i], #[trigger] f[j]) by {
                if j == f.len() - 1 {
                    assert(f[j] == s.last());
                    assert(f[i] == fd[i]);
                    lemma_filter_member(d, p, i);
                    let k = choose|k: int| 0 <= k < d.len() && d[k] == fd[i];
                    assert(s[k] == d[k]);
                    assert(r(s[k], s[s.len() - 1]));
                } else {
                    assert(f[i] == fd[i] && f[j] == fd[j]);
                }
            }
        }
    }
}

/// Filtering twice by one predicate filters once.
pub proof fn lemma_filter_twice<T>(s: Seq<T>, p: spec_fn(T) -> bool)
    ensures
        s.filter(p).filter(p) == s.filter(p),
    decreases s.len(),
{
    reveal_with_fuel(Seq::<_>::filter, 1);
    if s.len() > 0 {
        lemma_filter_twice(s.drop_last(), p);
        let f = s.drop_last().filter(p);
        if p(s.last()) {
            assert(f.push(s.last()).drop_last() =~= f);
            assert(f.push(s.last()).last() == s.last());
        }
    }
}

/// Every element of a filtered sequence comes from the unfiltered one.
pub proof fn lemma_filter_member<T>(s: Seq<T>, p: spec_fn(T) -> bool, i: int)
    requires
        0 <= i < s.filter(p).len(),
    ensures
        exists|k: int| 0 <= k < s.len() && s[k] == s.filter(p)[i],
        p(s.filter(p)[i]),
    decreases s.len(),
{
    reveal_with_fuel(Seq::<_>::filter, 1);
    let d = s.drop_last();
    if p(s.last()) && i == s.filter(p).len() - 1 {
        assert(s[s.len() - 1] == s.filter(p)[i]);
    } else {
        assert(s.filter(p)[i] == d.filter(p)[i]);
        lemma_filter_member(d, p, i);
        let k = choose|k: int| 0 <= k < d.len() && d[k] == d.filter(p)[i];
        assert(s[k] == d[k]);
    }
}

} // verus!

verus! {

/// Scanning `s` in order, the last element satisfying `ok` that `replaces` the
/// best one seen so far (the first such element starts the scan).
pub open spec fn pick<T>(s: Seq<T>, ok: spec_fn(T) -> bool, replaces: spec_fn(T, T) -> bool) -> Option<int>
    decreases s.len(),
{
    if s.len() == 0 {
        None
    } else {
        let prev = pick(s.drop_last(), ok, replaces);
        if ok(s.last()) && (prev is None || replaces(s.last(), s[prev->0])) {
            Some(s.len() - 1)
        } else {
            prev
        }
    }
}

/// A picked element is in range and satisfies `ok`; nothing is picked only
/// when no element satisfies `ok`.
pub proof fn lemma_pick<T>(s: Seq<T>, ok: spec_fn(T) -> bool, replaces: spec_fn(T, T) -> bool)
    ensures
        match pick(s, ok, replaces) {
            Some(i) => 0 <= i < s.len() && ok(s[i]),
            None => forall|j: int| 0 <= j < s.len() ==> !ok(#[trigger] s[j]),
        },
    decreases s.len(),
{
    if s.len() > 0 {
        let d = s.drop_last();
        lemma_pick(d, ok, replaces);
        if let Some(i) = pick(d, ok, replaces) {
            assert(s[i] == d[i]);
        } else {
            assert forall|j: int| 0 <= j < s.len() - 1 implies !ok(#[trigger] s[j]) by {
                assert(s[j] == d[j]);
            }
        }
    }
}

/// Picking by "strictly smaller key replaces" finds a least key among the
/// elements that satisfy `ok`, the first stored one of those.
pub proof fn lemma_pick_least<T>(s: Seq<T>, ok: spec_fn(T) -> bool, replaces: spec_fn(T, T) -> bool, key: spec_fn(T) -> int)
    requires
        forall|a: T, b: T| #[trigger] replaces(a, b) == (key(a) < key(b)),
    ensures
        match pick(s, ok, replaces) {
            Some(i) => {
                &&& 0 <= i < s.len() && ok(s[i])
                &&& forall|j: int| 0 <= j < s.len() && ok(#[trigger] s[j]) ==> key(s[i]) <= key(s[j])
                &&& forall|j: int| 0 <= j < i && ok(#[trigger] s[j]) ==> key(s[i]) < key(s[j])
            },
            None => forall|j: int| 0 <= j < s.len() ==> !ok(#[trigger] s[j]),
        },
    decreases s.len(),
{
    if s.len() > 0 {
        let d = s.drop_last();
        let n = s.len() - 1;
        lemma_pick_least(d, ok, replaces, key);
        assert forall|j: int| 0 <= j < n implies #[trigger] s[j] == d[j] by {}
        match pick(d, ok, replaces) {
            Some(p) => {
                assert(replaces(s.last(), s[p]) == (key(s.last()) < key(s[p])));
            },
            None => {},
        }
    }
}

/// Picking by "no smaller key replaces" finds a greatest key among the
/// elements that satisfy `ok`, the last stored one of those.
pub proof fn lemma_pick_greatest<T>(s: Seq<T>, ok: spec_fn(T) -> bool, replaces: spec_fn(T, T) -> bool, key: spec_fn(T) -> int)
    requires
        forall|a: T, b: T| #[trigger] replaces(a, b) == (key(a) >= key(b)),
    ensures
        match pick(s, ok, replaces) {
            Some(i) => {
                &&& 0 <= i < s.len() && ok(s[i])
                &&& forall|j: int| 0 <= j < s.len() && ok(#[trigger] s[j]) ==> key(s[j]) <= key(s[i])
                &&& forall|j: int| i < j < s.len() && ok(#[trigger] s[j]) ==> key(s[j]) < key(s[i])
            },
            None => forall|j: int| 0 <= j < s.len() ==> !ok(#[trigger] s[j]),
        },
    decreases s.len(),
{
    if s.len() > 0 {
        let d = s.drop_last();
        let n = s.len() - 1;
        lemma_pick_greatest(d, ok, replaces, key);
        assert forall|j: int| 0 <= j < n implies #[trigger] s[j] == d[j] by {}
        match pick(d, ok, replaces) {
            Some(p) => {
                assert(replaces(s.last(), s[p]) == (key(s.last()) >= key(s[p])));
            },
            None => {},
        }
    }
}

/// One more scanned element: how `pick` over a prefix grows.
pub proof fn lemma_pick_step<T>(s: Seq<T>, ok: spec_fn(T) -> bool, replaces: spec_fn(T, T) -> bool, i: int)
    requires
        0 <= i < s.len(),
    ensures
        pick(s.take(i + 1), ok, replaces) == (if ok(s[i]) && (pick(s.take(i), ok, replaces) is None
            || replaces(s[i], s[pick(s.take(i), ok, replaces)->0])) {
            Some(i)
        } else {
            pick(s.take(i), ok, replaces)
        }),
{
    assert(s.take(i + 1).drop_last() =~= s.take(i));
    lemma_pick(s.take(i), ok, replaces);
    if let Some(k) = pick(s.take(i), ok, replaces) {
        assert(s.take(i + 1)[k] == s[k]);
        assert(s.take(i)[k] == s[k]);
    }
}

} // verus!

verus! {

/// `perm` lists each index below `n` exactly once.
pub open spec fn is_permutation(perm: Seq<int>, n: int) -> bool {
    &&& perm.len() == n
    &&& forall|k: int| 0 <= k < perm.len() ==> 0 <= #[trigger] perm[k] < n
    &&& forall|a: int, b: int| 0 <= a < b < perm.len() ==> #[trigger] perm[a] != #[trigger] perm[b]
}

/// `keys` taken in the order `perm` is non-decreasing (non-increasing when
/// `descending`).
pub open spec fn ordered_by(keys: Seq<i64>, perm: Seq<int>, descending: bool) -> bool {
    forall|a: int, b: int| 0 <= a < b < perm.len() ==>
        if descending { keys[#[trigger] perm[a]] >= keys[#[trigger] perm[b]] } else { keys[perm[a]] <= keys[perm[b]] }
}

/// The positions of `keys`, sorted by key (ties keep their input order).
pub fn sort_by_key(keys: &Vec<i64>, descending: bool) -> (r: Vec<usize>)
    ensures
        is_permutation(r@.map_values(|i: usize| i as int), keys@.len() as int),
        ordered_by(keys@, r@.map_values(|i: usize| i as int), descending),
{
    let mut r: Vec<usize> = Vec::new();
    let mut i: usize = 0;
    while i < keys.len()
        invariant
            i <= keys@.len(),
            is_permutation(r@.map_values(|x: usize| x as int), i as int),
            ordered_by(keys@, r@.map_values(|x: usize| x as int), descending),
            forall|a: int| 0 <= a < r@.len() ==> #[trigger] r@[a] < i,
        decreases keys@.len() - i,
    {
        let k = keys[i];
        let mut pos: usize = 0;
        while pos < r.len() && ((descending && keys[r[pos]] >= k) || (!descending && keys[r[pos]] <= k))
            invariant
                i < keys@.len(),
                k == keys@[i as int],
                pos <= r@.len(),
                is_permutation(r@.map_values(|x: usize| x as int), i as int),
                ordered_by(keys@, r@.map_values(|x: usize| x as int), descending),
                forall|a: int| 0 <= a < r@.len() ==> #[trigger] r@[a] < i,
                forall|a: int| 0 <= a < pos ==> if descending { keys@[#[trigger] r@[a] as int] >= k } else { keys@[r@[a] as int] <= k },
            decreases r@.len() - pos,
        {
            pos = pos + 1;
        }
        let ghost before = r@;
        proof {
            let m = before.map_values(|x: usize| x as int);
            assert forall|a: int| pos <= a < before.len() implies
                if descending { keys@[#[trigger] before[a] as int] < k } else { keys@[before[a] as int] > k } by {
                if pos < before.len() {
                    if descending {
                        assert(keys@[before[pos as int] as int] < k);
                        if a > pos {
                            assert(m[pos as int] == before[pos as int] as int && m[a] == before[a] as int);
                            assert(keys@[m[pos as int]] >= keys@[m[a]]);
                        }
                    } else {
                        assert(keys@[before[pos as int] as int] > k);
                        if a > pos {
                            assert(m[pos as int] == before[pos as int] as int && m[a] == before[a] as int);
                            assert(keys@[m[pos as int]] <= keys@[m[a]]);
                        }
                    }
                }
            }
        }
        r.insert(pos, i);
        proof {
            let m = r@.map_values(|x: usize| x as int);
            let mb = before.map_values(|x: usize| x as int);
            assert forall|a: int| 0 <= a < r@.len() implies #[trigger] r@[a] == (if a < pos { before[a] } else if a == pos { i } else { before[a - 1] }) by {}
            assert forall|a: int| 0 <= a < m.len() implies 0 <= #[trigger] m[a] < i + 1 by {
                if a < pos {
                    assert(mb[a] == before[a] as int);
                } else if a > pos {
                    assert(mb[a - 1] == before[a - 1] as int);
                }
            }
            assert forall|a: int, b: int| 0 <= a < b < m.len() implies #[trigger] m[a] != #[trigger] m[b] by {
                if a < pos && b < pos {
                    assert(mb[a] == m[a] && mb[b] == m[b]);
                } else if a < pos && b > pos {
                    assert(mb[a] == m[a] && mb[b - 1] == m[b]);
                } else if a > pos && b > pos {
                    assert(mb[a - 1] == m[a] && mb[b - 1] == m[b]);
                } else if a == pos {
                    if b > pos {
                        assert(mb[b - 1] == m[b]);
                    }
                } else {
                    assert(mb[a] == m[a]);
                }
            }
            assert forall|a: int, b: int| 0 <= a < b < m.len() implies
                (if descending { keys@[#[trigger] m[a]] >= keys@[#[trigger] m[b]] } else { keys@[m[a]] <= keys@[m[b]] }) by {
                if a < pos && b < pos {
                    assert(mb[a] == m[a] && mb[b] == m[b]);
                } else if a < pos && b > pos {
                    assert(mb[a] == m[a] && mb[b - 1] == m[b]);
                    assert(m[a] == before[a] as int);
                    assert(m[b] == before[b - 1] as int);
                } else if a > pos && b > pos {
                    assert(mb[a - 1] == m[a] && mb[b - 1] == m[b]);
                } else if a == pos {
                    assert(m[b] == before[b - 1] as int);
                } else {
                    assert(m[a] == before[a] as int);
                }
            }
        }
        i = i + 1;
    }
    r
}

} // verus!

verus! {

/// No two elements of `s` share a `key`.
pub open spec fn distinct_by<T>(s: Seq<T>, key: spec_fn(T) -> Seq<char>) -> bool {
    forall|i: int, j: int| 0 <= i < j < s.len() ==> key(#[trigger] s[i]) != key(#[trigger] s[j])
}

/// Appending an element with a new key keeps keys distinct.
pub proof fn lemma_distinct_push<T>(s: Seq<T>, key: spec_fn(T) -> Seq<char>, x: T)
    requires
        distinct_by(s, key),
        forall|i: int| 0 <= i < s.len() ==> key(#[trigger] s[i]) != key(x),
    ensures
        distinct_by(s.push(x), key),
{
    assert forall|i: int, j: int| 0 <= i < j < s.push(x).len() implies key(#[trigger] s.push(x)[i]) != key(#[trigger] s.push(x)[j]) by {
        if j < s.len() {
            assert(s.push(x)[i] == s[i] && s.push(x)[j] == s[j]);
        } else {
            assert(s.push(x)[i] == s[i]);
        }
    }
}

/// Replacing an element by one with the same key keeps keys distinct.
pub proof fn lemma_distinct_update<T>(s: Seq<T>, key: spec_fn(T) -> Seq<char>, k: int, x: T)
    requires
        distinct_by(s, key),
        0 <= k < s.len(),
        key(x) == key(s[k]),
    ensures
        distinct_by(s.update(k, x), key),
{
    assert forall|i: int, j: int| 0 <= i < j < s.update(k, x).len() implies key(#[trigger] s.update(k, x)[i]) != key(#[trigger] s.update(k, x)[j]) by {
        assert(key(s.update(k, x)[i]) == key(s[i]));
        assert(key(s.update(k, x)[j]) == key(s[j]));
    }
}

/// Filtering keeps keys distinct.
pub proof fn lemma_distinct_filter<T>(s: Seq<T>, key: spec_fn(T) -> Seq<char>, p: spec_fn(T) -> bool)
    requires
        distinct_by(s, key),
    ensures
        distinct_by(s.filter(p), key),
{
    let r = |a: T, b: T| key(a) != key(b);
    assert forall|i: int, j: int| 0 <= i < j < s.len() implies r(#[trigger] s[i], #[trigger] s[j]) by {}
    lemma_filter_pairwise(s, p, r);
    assert forall|i: int, j: int| 0 <= i < j < s.filter(p).len() implies key(#[trigger] s.filter(p)[i]) != key(#[trigger] s.filter(p)[j]) by {
        assert(r(s.filter(p)[i], s.filter(p)[j]));
    }
}

} // verus!

verus! {

/// Filtering a prefix gives a prefix of the filtered sequence.
pub proof fn lemma_filter_prefix<T>(s: Seq<T>, p: spec_fn(T) -> bool, i: int)
    requires
        0 <= i <= s.len(),
    ensures
        s.take(i).filter(p).len() <= s.filter(p).len(),
        forall|k: int| 0 <= k < s.take(i).filter(p).len() ==> #[trigger] s.take(i).filter(p)[k] == s.filter(p)[k],
        i == s.len() ==> s.take(i).filter(p) == s.filter(p),
{
    assert(s =~= s.take(i) + s.skip(i));
    Seq::filter_distributes_over_add(s.take(i), s.skip(i), p);
    if i == s.len() {
        assert(s.take(i) =~= s);
    }
}

} // verus!

verus! {

/// Whether no two of `ids` are the same text.
pub fn distinct_texts(ids: &Vec<String>) -> (b: bool)
    ensures
        b == (forall|i: int, j: int| 0 <= i < j < ids@.len() ==> (#[trigger] ids@[i])@ != (#[trigger] ids@[j])@),
{
    let mut i: usize = 0;
    while i < ids.len()
        invariant
            i <= ids@.len(),
            forall|a: int, c: int| 0 <= a < i && a < c < ids@.len() ==> (#[trigger] ids@[a])@ != (#[trigger] ids@[c])@,
        decreases ids@.len() - i,
    {
        let mut j: usize = i + 1;
        while j < ids.len()
            invariant
                i < ids@.len(),
                i + 1 <= j <= ids@.len(),
                forall|a: int, c: int| 0 <= a < i && a < c < ids@.len() ==> (#[trigger] ids@[a])@ != (#[trigger] ids@[c])@,
                forall|c: int| i < c < j ==> ids@[i as int]@ != (#[trigger] ids@[c])@,
            decreases ids@.len() - j,
        {
            if ids[i] == ids[j] {
                return false;
            }
            j = j + 1;
        }
        i = i + 1;
    }
    true
}

} // verus!
