//! Sequences as the common model of the library's lists and tables: keeping
//! what a partial function maps, and reading a list of pairs as a table.

use vstd::prelude::*;

verus! {

/// The results of `f` on the items of `s` on which it gives one, in order.
pub open spec fn filter_map<A, B>(s: Seq<A>, f: spec_fn(A) -> Option<B>) -> Seq<B>
    decreases s.len(),
{
    if s.len() == 0 {
        Seq::empty()
    } else {
        let rest = filter_map(s.drop_last(), f);
        match f(s.last()) {
            Some(b) => rest.push(b),
            None => rest,
        }
    }
}

/// One more item adds its result, if it has one, at the end.
pub proof fn lemma_filter_map_push<A, B>(s: Seq<A>, a: A, f: spec_fn(A) -> Option<B>)
    ensures
        filter_map(s.push(a), f) == match f(a) {
            Some(b) => filter_map(s, f).push(b),
            None => filter_map(s, f),
        },
{
    assert(s.push(a).drop_last() =~= s);
}

/// What is kept of two sequences in a row is what is kept of the first,
/// followed by what is kept of the second.
pub proof fn lemma_filter_map_concat<A, B>(a: Seq<A>, b: Seq<A>, f: spec_fn(A) -> Option<B>)
    ensures
        filter_map(a + b, f) == filter_map(a, f) + filter_map(b, f),
    decreases b.len(),
{
    if b.len() == 0 {
        assert(a + b =~= a);
        assert(filter_map(a, f) + filter_map(b, f) =~= filter_map(a, f));
    } else {
        assert((a + b).drop_last() =~= a + b.drop_last());
        assert((a + b).last() == b.last());
        lemma_filter_map_concat(a, b.drop_last(), f);
        let front = filter_map(a, f) + filter_map(b.drop_last(), f);
        match f(b.last()) {
            Some(x) => {
                assert(front.push(x) =~= filter_map(a, f) + filter_map(b.drop_last(), f).push(x));
            },
            None => {},
        }
    }
}

/// The result of an item on which `f` gives one is among what is kept.
pub proof fn lemma_filter_map_member<A, B>(s: Seq<A>, i: int, f: spec_fn(A) -> Option<B>)
    requires
        0 <= i < s.len(),
        f(s[i]) is Some,
    ensures
        filter_map(s, f).contains(f(s[i]).unwrap()),
    decreases s.len(),
{
    let kept = filter_map(s, f);
    if i == s.len() - 1 {
        assert(kept[kept.len() - 1] == f(s[i]).unwrap());
    } else {
        let front = filter_map(s.drop_last(), f);
        assert(s.drop_last()[i] == s[i]);
        lemma_filter_map_member(s.drop_last(), i, f);
        let j = choose|j: int| 0 <= j < front.len() && front[j] == f(s[i]).unwrap();
        assert(kept[j] == front[j]);
    }
}

/// Two functions that agree on every item of the sequence keep the same.
pub proof fn lemma_filter_map_agree<A, B>(
    s: Seq<A>,
    f: spec_fn(A) -> Option<B>,
    g: spec_fn(A) -> Option<B>,
)
    requires
        forall|i: int| 0 <= i < s.len() ==> #[trigger] f(s[i]) == g(s[i]),
    ensures
        filter_map(s, f) == filter_map(s, g),
    decreases s.len(),
{
    if s.len() > 0 {
        let front = s.drop_last();
        assert forall|i: int| 0 <= i < front.len() implies #[trigger] f(front[i]) == g(
            front[i],
        ) by {
            assert(front[i] == s[i]);
        }
        lemma_filter_map_agree(front, f, g);
        assert(f(s[s.len() - 1]) == g(s[s.len() - 1]));
    }
}

/// Keeping by `f` and then by `g` keeps what `g` after `f` keeps.
pub proof fn lemma_filter_map_compose<A, B, C>(
    s: Seq<A>,
    f: spec_fn(A) -> Option<B>,
    g: spec_fn(B) -> Option<C>,
    h: spec_fn(A) -> Option<C>,
)
    requires
        forall|i: int|
            0 <= i < s.len() ==> #[trigger] h(s[i]) == match f(s[i]) {
                Some(b) => g(b),
                None => None,
            },
    ensures
        filter_map(filter_map(s, f), g) == filter_map(s, h),
    decreases s.len(),
{
    if s.len() > 0 {
        let front = s.drop_last();
        assert forall|i: int| 0 <= i < front.len() implies #[trigger] h(front[i]) == match f(
            front[i],
        ) {
            Some(b) => g(b),
            None => None,
        } by {
            assert(front[i] == s[i]);
        }
        lemma_filter_map_compose(front, f, g, h);
        assert(h(s[s.len() - 1]) == match f(s[s.len() - 1]) {
            Some(b) => g(b),
            None => None,
        });
        match f(s.last()) {
            Some(b) => {
                lemma_filter_map_push(filter_map(front, f), b, g);
            },
            None => {},
        }
    }
}

/// The position in `s` of the item whose result is the `j`-th that is kept.
pub open spec fn kept_at<A, B>(s: Seq<A>, f: spec_fn(A) -> Option<B>, j: int) -> int
    decreases s.len(),
{
    if s.len() == 0 {
        0
    } else if j < filter_map(s.drop_last(), f).len() {
        kept_at(s.drop_last(), f, j)
    } else {
        s.len() - 1
    }
}

/// Every kept result is the result of the item at its position, there are
/// no more results than items, and the results stand in the order of their
/// items.
pub proof fn lemma_kept_at<A, B>(s: Seq<A>, f: spec_fn(A) -> Option<B>)
    ensures
        filter_map(s, f).len() <= s.len(),
        forall|j: int|
            0 <= j < filter_map(s, f).len() ==> 0 <= #[trigger] kept_at(s, f, j) < s.len() && f(
                s[kept_at(s, f, j)],
            ) == Some(filter_map(s, f)[j]),
        forall|j: int, k: int|
            0 <= j < k < filter_map(s, f).len() ==> #[trigger] kept_at(s, f, j) < #[trigger] kept_at(
                s,
                f,
                k,
            ),
    decreases s.len(),
{
    if s.len() > 0 {
        let front = s.drop_last();
        let rest = filter_map(front, f);
        lemma_kept_at(front, f);
        assert forall|j: int| 0 <= j < filter_map(s, f).len() implies 0 <= #[trigger] kept_at(
            s,
            f,
            j,
        ) < s.len() && f(s[kept_at(s, f, j)]) == Some(filter_map(s, f)[j]) by {
            if j < rest.len() {
                let at = kept_at(front, f, j);
                assert(0 <= at < front.len());
                assert(front[at] == s[at]);
            } else {
                assert(f(s[s.len() - 1]) is Some);
            }
        }
        assert forall|j: int, k: int| 0 <= j < k < filter_map(s, f).len() implies #[trigger] kept_at(
            s,
            f,
            j,
        ) < #[trigger] kept_at(s, f, k) by {
            assert(0 <= kept_at(front, f, j) < front.len());
            if k < rest.len() {
                assert(kept_at(front, f, j) < kept_at(front, f, k));
            }
        }
    }
}

/// Where `f` keeps every item, the results stand one for one.
pub proof fn lemma_filter_map_total<A, B>(s: Seq<A>, f: spec_fn(A) -> Option<B>)
    requires
        forall|i: int| 0 <= i < s.len() ==> (#[trigger] f(s[i])) is Some,
    ensures
        filter_map(s, f).len() == s.len(),
        forall|i: int| 0 <= i < s.len() ==> Some(#[trigger] filter_map(s, f)[i]) == f(s[i]),
    decreases s.len(),
{
    if s.len() > 0 {
        assert forall|i: int| 0 <= i < s.drop_last().len() implies (#[trigger] f(
            s.drop_last()[i],
        )) is Some by {
            assert(s.drop_last()[i] == s[i]);
        }
        lemma_filter_map_total(s.drop_last(), f);
        assert(f(s[s.len() - 1]) is Some);
        assert forall|i: int| 0 <= i < s.len() implies Some(#[trigger] filter_map(s, f)[i]) == f(
            s[i],
        ) by {
            if i < s.len() - 1 {
                assert(s.drop_last()[i] == s[i]);
            }
        }
    }
}

/// Where `g` undoes `f` on every item, mapping there and back gives the
/// sequence again.
pub proof fn lemma_filter_map_inverse<A, B>(
    s: Seq<A>,
    f: spec_fn(A) -> Option<B>,
    g: spec_fn(B) -> Option<A>,
)
    requires
        forall|i: int|
            0 <= i < s.len() ==> ((#[trigger] f(s[i])) matches Some(b) && g(b) == Some(s[i])),
    ensures
        filter_map(filter_map(s, f), g) == s,
    decreases s.len(),
{
    if s.len() > 0 {
        let front = s.drop_last();
        assert forall|i: int| 0 <= i < front.len() implies ((#[trigger] f(front[i])) matches Some(
            b,
        ) && g(b) == Some(front[i])) by {
            assert(front[i] == s[i]);
        }
        lemma_filter_map_inverse(front, f, g);
        assert(f(s[s.len() - 1]) is Some);
        let b = f(s.last()).unwrap();
        lemma_filter_map_push(filter_map(front, f), b, g);
        assert(front.push(s.last()) =~= s);
    } else {
        assert(filter_map(filter_map(s, f), g) =~= s);
    }
}

/// The value beside the first occurrence of the key `k`, if the key occurs.
pub open spec fn first_of<K, V>(s: Seq<(K, V)>, k: K) -> Option<V>
    decreases s.len(),
{
    if s.len() == 0 {
        None
    } else if s[0].0 == k {
        Some(s[0].1)
    } else {
        first_of(s.drop_first(), k)
    }
}

/// The table that a list of pairs writes down: each pair sets its key, a
/// later pair replacing an earlier one with the same key.
pub open spec fn assoc<K, V>(s: Seq<(K, V)>) -> Map<K, V>
    decreases s.len(),
{
    if s.len() == 0 {
        Map::empty()
    } else {
        assoc(s.drop_last()).insert(s.last().0, s.last().1)
    }
}

/// No key stands twice in the list.
pub open spec fn distinct_keys<K, V>(s: Seq<(K, V)>) -> bool {
    forall|i: int, j: int| 0 <= i < j < s.len() ==> s[i].0 != s[j].0
}

/// Some pair of the list has the key `k`.
pub open spec fn has_key<K, V>(s: Seq<(K, V)>, k: K) -> bool {
    exists|i: int| 0 <= i < s.len() && (#[trigger] s[i]).0 == k
}

/// One more pair sets its key in the table.
pub proof fn lemma_assoc_push<K, V>(s: Seq<(K, V)>, k: K, v: V)
    ensures
        assoc(s.push((k, v))) == assoc(s).insert(k, v),
{
    assert(s.push((k, v)).drop_last() =~= s);
}

/// The table holds exactly the keys of the list, and it is finite.
pub proof fn lemma_assoc_keys<K, V>(s: Seq<(K, V)>)
    ensures
        forall|k: K| #[trigger] assoc(s).contains_key(k) <==> has_key(s, k),
        assoc(s).dom().finite(),
        assoc(s).len() <= s.len(),
    decreases s.len(),
{
    if s.len() > 0 {
        let front = s.drop_last();
        lemma_assoc_keys(front);
        assert forall|k: K| #[trigger] assoc(s).contains_key(k) <==> has_key(s, k) by {
            if assoc(s).contains_key(k) {
                if k == s.last().0 {
                    assert(s[s.len() - 1].0 == k);
                } else {
                    assert(has_key(front, k));
                    let i = choose|i: int| 0 <= i < front.len() && (#[trigger] front[i]).0 == k;
                    assert(s[i].0 == k);
                }
            }
            if has_key(s, k) {
                let i = choose|i: int| 0 <= i < s.len() && (#[trigger] s[i]).0 == k;
                if i < s.len() - 1 {
                    assert(front[i].0 == k);
                }
            }
        }
        assert(assoc(s).dom() =~= assoc(front).dom().insert(s.last().0));
    } else {
        assert forall|k: K| #[trigger] assoc(s).contains_key(k) <==> has_key(s, k) by {}
    }
}

/// Where no key stands twice, the table gives each key the value beside it.
pub proof fn lemma_assoc_value<K, V>(s: Seq<(K, V)>, i: int)
    requires
        distinct_keys(s),
        0 <= i < s.len(),
    ensures
        assoc(s).contains_key(s[i].0),
        assoc(s)[s[i].0] == s[i].1,
    decreases s.len(),
{
    let front = s.drop_last();
    if i < s.len() - 1 {
        assert(front[i] == s[i]);
        lemma_assoc_value(front, i);
    }
}

/// The table gives a key the value of the last pair that has it.
pub proof fn lemma_assoc_last<K, V>(s: Seq<(K, V)>, i: int)
    requires
        0 <= i < s.len(),
        forall|j: int| i < j < s.len() ==> (#[trigger] s[j]).0 != s[i].0,
    ensures
        assoc(s).contains_key(s[i].0),
        assoc(s)[s[i].0] == s[i].1,
    decreases s.len(),
{
    let front = s.drop_last();
    if i < s.len() - 1 {
        assert(front[i] == s[i]);
        assert forall|j: int| i < j < front.len() implies (#[trigger] front[j]).0 != front[i].0 by {
            assert(front[j] == s[j]);
        }
        lemma_assoc_last(front, i);
        assert(s[s.len() - 1].0 != s[i].0);
    }
}

/// Where no key stands twice, the table has as many keys as the list has
/// pairs.
pub proof fn lemma_assoc_len<K, V>(s: Seq<(K, V)>)
    requires
        distinct_keys(s),
    ensures
        assoc(s).dom().finite(),
        assoc(s).len() == s.len(),
    decreases s.len(),
{
    if s.len() > 0 {
        let front = s.drop_last();
        lemma_assoc_len(front);
        lemma_assoc_keys(front);
        if has_key(front, s.last().0) {
            let i = choose|i: int| 0 <= i < front.len() && (#[trigger] front[i]).0 == s.last().0;
            assert(s[i].0 == s[s.len() - 1].0);
        }
    }
}

/// A pair put into a list that lacks its key sets that key, wherever it is
/// put.
pub proof fn lemma_assoc_insert_at<K, V>(s: Seq<(K, V)>, at: int, k: K, v: V)
    requires
        distinct_keys(s),
        !has_key(s, k),
        0 <= at <= s.len(),
    ensures
        distinct_keys(s.insert(at, (k, v))),
        assoc(s.insert(at, (k, v))) == assoc(s).insert(k, v),
{
    let t = s.insert(at, (k, v));
    assert forall|i: int, j: int| 0 <= i < j < t.len() implies t[i].0 != t[j].0 by {
        let si = if i < at { i } else { i - 1 };
        let sj = if j < at { j } else { j - 1 };
        if i != at && j != at {
            assert(t[i] == s[si] && t[j] == s[sj]);
        } else if i == at {
            assert(t[j] == s[sj]);
        } else {
            assert(t[i] == s[si]);
        }
    }
    lemma_assoc_keys(s);
    lemma_assoc_keys(t);
    assert forall|x: K| #[trigger] assoc(t).contains_key(x) <==> assoc(s).insert(k, v).contains_key(x) by {
        if has_key(t, x) {
            let i = choose|i: int| 0 <= i < t.len() && (#[trigger] t[i]).0 == x;
            if i != at {
                let si = if i < at { i } else { i - 1 };
                assert(s[si].0 == x);
            }
        }
        if has_key(s, x) {
            let i = choose|i: int| 0 <= i < s.len() && (#[trigger] s[i]).0 == x;
            let ti = if i < at { i } else { i + 1 };
            assert(t[ti].0 == x);
        }
        if x == k {
            assert(t[at].0 == x);
        }
    }
    assert forall|x: K| #[trigger] assoc(t).contains_key(x) implies assoc(t)[x] == assoc(s).insert(k, v)[x] by {
        let i = choose|i: int| 0 <= i < t.len() && (#[trigger] t[i]).0 == x;
        lemma_assoc_value(t, i);
        if i != at {
            let si = if i < at { i } else { i - 1 };
            assert(t[i] == s[si]);
            lemma_assoc_value(s, si);
        }
    }
    assert(assoc(t) =~= assoc(s).insert(k, v));
}

/// A new value written over the pair at `at` sets that pair's key.
pub proof fn lemma_assoc_update<K, V>(s: Seq<(K, V)>, at: int, v: V)
    requires
        distinct_keys(s),
        0 <= at < s.len(),
    ensures
        distinct_keys(s.update(at, (s[at].0, v))),
        assoc(s.update(at, (s[at].0, v))) == assoc(s).insert(s[at].0, v),
{
    let k = s[at].0;
    let t = s.update(at, (k, v));
    lemma_assoc_keys(s);
    lemma_assoc_keys(t);
    assert forall|x: K| #[trigger] assoc(t).contains_key(x) <==> assoc(s).insert(k, v).contains_key(x) by {
        if has_key(t, x) {
            let i = choose|i: int| 0 <= i < t.len() && (#[trigger] t[i]).0 == x;
            assert(s[i].0 == x);
        }
        if has_key(s, x) {
            let i = choose|i: int| 0 <= i < s.len() && (#[trigger] s[i]).0 == x;
            assert(t[i].0 == x);
        }
        if x == k {
            assert(t[at].0 == x);
        }
    }
    assert forall|x: K| #[trigger] assoc(t).contains_key(x) implies assoc(t)[x] == assoc(s).insert(k, v)[x] by {
        let i = choose|i: int| 0 <= i < t.len() && (#[trigger] t[i]).0 == x;
        lemma_assoc_value(t, i);
        if i != at {
            assert(t[i] == s[i]);
            lemma_assoc_value(s, i);
        }
    }
    assert(assoc(t) =~= assoc(s).insert(k, v));
}

/// The pair at `at` taken out of the list takes its key out of the table.
pub proof fn lemma_assoc_remove<K, V>(s: Seq<(K, V)>, at: int)
    requires
        distinct_keys(s),
        0 <= at < s.len(),
    ensures
        distinct_keys(s.remove(at)),
        assoc(s.remove(at)) == assoc(s).remove(s[at].0),
{
    let k = s[at].0;
    let t = s.remove(at);
    assert forall|i: int, j: int| 0 <= i < j < t.len() implies t[i].0 != t[j].0 by {
        let si = if i < at { i } else { i + 1 };
        let sj = if j < at { j } else { j + 1 };
        assert(t[i] == s[si] && t[j] == s[sj]);
    }
    lemma_assoc_keys(s);
    lemma_assoc_keys(t);
    assert forall|x: K| #[trigger] assoc(t).contains_key(x) <==> assoc(s).remove(k).contains_key(x) by {
        if has_key(t, x) {
            let i = choose|i: int| 0 <= i < t.len() && (#[trigger] t[i]).0 == x;
            let si = if i < at { i } else { i + 1 };
            assert(t[i] == s[si]);
            assert(s[si].0 == x);
        }
        if has_key(s, x) && x != k {
            let i = choose|i: int| 0 <= i < s.len() && (#[trigger] s[i]).0 == x;
            let ti = if i < at { i } else { i - 1 };
            assert(t[ti] == s[i]);
            assert(t[ti].0 == x);
        }
    }
    assert forall|x: K| #[trigger] assoc(t).contains_key(x) implies assoc(t)[x] == assoc(s).remove(k)[x] by {
        let i = choose|i: int| 0 <= i < t.len() && (#[trigger] t[i]).0 == x;
        let si = if i < at { i } else { i + 1 };
        assert(t[i] == s[si]);
        lemma_assoc_value(t, i);
        lemma_assoc_value(s, si);
    }
    assert(assoc(t) =~= assoc(s).remove(k));
}

} // verus!
