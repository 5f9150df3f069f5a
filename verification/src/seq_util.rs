use vstd::prelude::*;

verus! {

/// `i` is the first position of `s` that satisfies `p`.
pub open spec fn is_first<T>(s: Seq<T>, p: spec_fn(T) -> bool, i: int) -> bool {
    &&& 0 <= i < s.len()
    &&& p(s[i])
    &&& forall|j: int| 0 <= j < i ==> !p(#[trigger] s[j])
}

/// First position of `s` that satisfies `p`, or -1 when none does.
pub open spec fn first_index<T>(s: Seq<T>, p: spec_fn(T) -> bool) -> int {
    if exists|i: int| is_first(s, p, i) {
        choose|i: int| is_first(s, p, i)
    } else {
        -1
    }
}

/// `first_index` is the unique first match, and -1 exactly when nothing matches.
pub proof fn lemma_first_index<T>(s: Seq<T>, p: spec_fn(T) -> bool)
    ensures
        (exists|i: int| 0 <= i < s.len() && p(s[i])) ==> is_first(s, p, first_index(s, p)),
        (forall|i: int| 0 <= i < s.len() ==> !p(#[trigger] s[i])) ==> first_index(s, p) == -1,
        forall|i: int| is_first(s, p, i) ==> first_index(s, p) == i,
    decreases s.len(),
{
    assert forall|i: int, k: int| is_first(s, p, i) && is_first(s, p, k) implies i == k by {
        if i < k {
            assert(!p(s[i]));
        } else if k < i {
            assert(!p(s[k]));
        }
    }
    if exists|i: int| 0 <= i < s.len() && p(s[i]) {
        let w = choose|i: int| 0 <= i < s.len() && p(s[i]);
        lemma_first_exists(s, p, w);
    }
}

pub proof fn lemma_first_exists<T>(s: Seq<T>, p: spec_fn(T) -> bool, w: int)
    requires
        0 <= w < s.len(),
        p(s[w]),
    ensures
        exists|i: int| is_first(s, p, i),
    decreases w,
{
    if forall|j: int| 0 <= j < w ==> !p(#[trigger] s[j]) {
        assert(is_first(s, p, w));
    } else {
        let v = choose|j: int| 0 <= j < w && p(s[j]);
        lemma_first_exists(s, p, v);
    }
}

} // verus!
verus! {

/// A pairwise property of a sequence survives filtering.
pub proof fn lemma_filter_keeps_pairwise<A>(s: Seq<A>, p: spec_fn(A) -> bool, r: spec_fn(A, A) -> bool)
    requires
        forall|i: int, j: int| 0 <= i < j < s.len() ==> #[trigger] r(s[i], s[j]),
    ensures
        forall|i: int, j: int| 0 <= i < j < s.filter(p).len() ==> #[trigger] r(s.filter(p)[i], s.filter(p)[j]),
    decreases s.len(),
{
    reveal(Seq::filter);
    if s.len() > 0 {
        let d = s.drop_last();
        assert forall|i: int, j: int| 0 <= i < j < d.len() implies #[trigger] r(d[i], d[j]) by {
            assert(d[i] == s[i] && d[j] == s[j]);
        }
        lemma_filter_keeps_pairwise(d, p, r);
        let f = d.filter(p);
        if p(s.last()) {
            d.filter_lemma(p);
            assert forall|i: int, j: int| 0 <= i < j < f.push(s.last()).len() implies #[trigger] r(f.push(s.last())[i], f.push(s.last())[j]) by {
                if j < f.len() {
                    assert(f.push(s.last())[i] == f[i]);
                    assert(f.push(s.last())[j] == f[j]);
                } else {
                    assert(f.contains(f[i]));
                    d.lemma_filter_contains_rev(p, f[i]);
                    assert(d.contains(f[i]));
                    let k = choose|k: int| 0 <= k < d.len() && d[k] == f[i];
                    assert(s[k] == f[i]);
                    assert(r(s[k], s[s.len() - 1]));
                }
            }
        }
    }
}

/// Elements of a filtered sequence come from the sequence and satisfy the filter.
pub proof fn lemma_filter_elements<A>(s: Seq<A>, p: spec_fn(A) -> bool, i: int)
    requires
        0 <= i < s.filter(p).len(),
    ensures
        s.contains(s.filter(p)[i]),
        p(s.filter(p)[i]),
{
    s.filter_lemma(p);
    assert(s.filter(p).contains(s.filter(p)[i]));
    s.lemma_filter_contains_rev(p, s.filter(p)[i]);
}

} // verus!
verus! {

/// The elements of `s` whose flag in `keep` is set, in order.
pub open spec fn select<A>(s: Seq<A>, keep: Seq<bool>) -> Seq<A>
    decreases s.len(),
{
    if s.len() == 0 {
        s
    } else {
        let sub = select(s.drop_last(), keep.drop_last());
        if keep.last() { sub.push(s.last()) } else { sub }
    }
}

/// Every selected element comes from the sequence, and a pairwise property
/// of the sequence holds of the selected elements, in their order.
pub proof fn lemma_select_keeps_pairwise<A>(s: Seq<A>, keep: Seq<bool>, r: spec_fn(A, A) -> bool)
    requires
        keep.len() == s.len(),
        forall|i: int, j: int| 0 <= i < j < s.len() ==> #[trigger] r(s[i], s[j]),
    ensures
        forall|i: int| 0 <= i < select(s, keep).len() ==> s.contains(#[trigger] select(s, keep)[i]),
        forall|i: int, j: int| 0 <= i < j < select(s, keep).len()
            ==> #[trigger] r(select(s, keep)[i], select(s, keep)[j]),
    decreases s.len(),
{
    if s.len() > 0 {
        let d = s.drop_last();
        let kd = keep.drop_last();
        assert forall|i: int, j: int| 0 <= i < j < d.len() implies #[trigger] r(d[i], d[j]) by {
            assert(d[i] == s[i] && d[j] == s[j]);
        }
        lemma_select_keeps_pairwise(d, kd, r);
        let sd = select(d, kd);
        let sel = select(s, keep);
        assert(sel == if keep.last() { sd.push(s.last()) } else { sd });
        assert forall|i: int| 0 <= i < sel.len() implies s.contains(#[trigger] sel[i]) by {
            if i < sd.len() {
                assert(sel[i] == sd[i]);
                assert(d.contains(sd[i]));
                let k = choose|k: int| 0 <= k < d.len() && d[k] == sd[i];
                assert(d[k] == s[k]);
            } else {
                assert(sel[i] == s[s.len() - 1]);
            }
        }
        assert forall|i: int, j: int| 0 <= i < j < sel.len() implies #[trigger] r(sel[i], sel[j]) by {
            if j < sd.len() {
                assert(sel[i] == sd[i] && sel[j] == sd[j]);
            } else {
                assert(sel[i] == sd[i]);
                assert(sel[j] == s[s.len() - 1]);
                assert(d.contains(sd[i]));
                let k = choose|k: int| 0 <= k < d.len() && d[k] == sd[i];
                assert(d[k] == s[k]);
                assert(r(s[k], s[s.len() - 1]));
            }
        }
    }
}

/// Selecting by the flags of a predicate is filtering by it.
pub proof fn lemma_select_is_filter<A>(s: Seq<A>, p: spec_fn(A) -> bool, keep: Seq<bool>)
    requires
        keep.len() == s.len(),
        forall|i: int| 0 <= i < s.len() ==> #[trigger] keep[i] == p(s[i]),
    ensures
        select(s, keep) == s.filter(p),
    decreases s.len(),
{
    reveal(Seq::filter);
    if s.len() > 0 {
        let d = s.drop_last();
        let kd = keep.drop_last();
        assert forall|i: int| 0 <= i < d.len() implies #[trigger] kd[i] == p(d[i]) by {
            assert(keep[i] == p(s[i]));
        }
        lemma_select_is_filter(d, p, kd);
        assert(keep[s.len() - 1] == p(s[s.len() - 1]));
    }
}

proof fn lemma_select_step<A>(s: Seq<A>, keep: Seq<bool>, k: int)
    requires
        0 <= k < s.len(),
        keep.len() == s.len(),
    ensures
        select(s.take(k + 1), keep.take(k + 1)) == if keep[k] {
            select(s.take(k), keep.take(k)).push(s[k])
        } else {
            select(s.take(k), keep.take(k))
        },
{
    assert(s.take(k + 1).drop_last() =~= s.take(k));
    assert(keep.take(k + 1).drop_last() =~= keep.take(k));
}

/// Keep the elements of `v` whose flag in `keep` is set, in order.
pub fn retain_flagged<E>(v: &mut Vec<E>, keep: &Vec<bool>)
    requires
        keep@.len() == old(v)@.len(),
    ensures
        final(v)@ == select(old(v)@, keep@),
{
    let ghost orig = v@;
    let mut i: usize = 0;
    let mut k: usize = 0;
    proof {
        assert(orig.take(0) =~= Seq::<E>::empty());
        assert(keep@.take(0) =~= Seq::<bool>::empty());
        assert(v@.take(0) =~= Seq::<E>::empty());
        assert(orig.skip(0) =~= orig);
        assert(v@.skip(0) =~= v@);
    }
    while k < keep.len()
        invariant
            keep@.len() == orig.len(),
            0 <= i <= v@.len(),
            0 <= k <= orig.len(),
            v@.len() - i == orig.len() - k,
            v@.take(i as int) == select(orig.take(k as int), keep@.take(k as int)),
            v@.skip(i as int) == orig.skip(k as int),
        decreases orig.len() - k,
    {
        let ghost cur = v@;
        let len_now = v.len();
        assert(i < len_now);
        assert(cur[i as int] == orig[k as int]) by {
            assert(cur.skip(i as int)[0] == orig.skip(k as int)[0]);
        }
        proof {
            lemma_select_step(orig, keep@, k as int);
        }
        if keep[k] {
            proof {
                assert(v@.take(i + 1) =~= cur.take(i as int).push(cur[i as int]));
                assert forall|j: int| 0 <= j < v@.skip(i + 1).len()
                    implies #[trigger] v@.skip(i + 1)[j] == orig.skip(k + 1)[j] by {
                    assert(cur.skip(i as int)[j + 1] == orig.skip(k as int)[j + 1]);
                }
                assert(v@.skip(i + 1) =~= orig.skip(k + 1));
            }
            i += 1;
        } else {
            v.remove(i);
            proof {
                assert(v@ =~= cur.remove(i as int));
                assert(v@.take(i as int) =~= cur.take(i as int));
                assert forall|j: int| 0 <= j < v@.skip(i as int).len()
                    implies #[trigger] v@.skip(i as int)[j] == orig.skip(k + 1)[j] by {
                    assert(cur.skip(i as int)[j + 1] == orig.skip(k as int)[j + 1]);
                }
                assert(v@.skip(i as int) =~= orig.skip(k + 1));
            }
        }
        k += 1;
    }
    proof {
        assert(orig.take(orig.len() as int) =~= orig);
        assert(keep@.take(keep@.len() as int) =~= keep@);
        assert(v@.skip(i as int).len() == 0);
        assert(v@.take(i as int) =~= v@);
    }
}

/// Selecting commutes with mapping.
pub proof fn lemma_select_map<A, B>(s: Seq<A>, keep: Seq<bool>, f: spec_fn(A) -> B)
    requires
        keep.len() == s.len(),
    ensures
        select(s, keep).map_values(f) == select(s.map_values(f), keep),
    decreases s.len(),
{
    if s.len() > 0 {
        lemma_select_map(s.drop_last(), keep.drop_last(), f);
        assert(s.map_values(f).drop_last() =~= s.drop_last().map_values(f));
        if keep.last() {
            assert(select(s, keep).map_values(f) =~= select(s.drop_last(), keep.drop_last()).map_values(f).push(f(s.last())));
        }
    } else {
        assert(select(s, keep).map_values(f) =~= select(s.map_values(f), keep));
    }
}

} // verus!
