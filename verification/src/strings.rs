use vstd::prelude::*;
use vstd::string::StrSliceExecFns;

verus! {

/// `a` comes strictly before `b` in lexicographic order by code point, the
/// order of Rust's `String` comparison: at the first position where they
/// differ `a` has the smaller character, or `a` is a proper prefix of `b`.
pub open spec fn lex_lt(a: Seq<char>, b: Seq<char>) -> bool {
    exists|k: int| #[trigger] lex_lt_at(a, b, k)
}

/// `a` and `b` agree before position `k`, and `k` decides `a < b`.
pub open spec fn lex_lt_at(a: Seq<char>, b: Seq<char>, k: int) -> bool {
    &&& 0 <= k <= a.len()
    &&& k <= b.len()
    &&& forall|j: int| 0 <= j < k ==> #[trigger] a[j] == b[j]
    &&& (k == a.len() && k < b.len()) || (k < a.len() && k < b.len() && (a[k] as u32) < (b[k] as u32))
}

/// Lexicographic order is transitive.
pub proof fn lemma_lex_transitive(a: Seq<char>, b: Seq<char>, c: Seq<char>)
    requires
        lex_lt(a, b),
        lex_lt(b, c),
    ensures
        lex_lt(a, c),
{
    let k1 = choose|k: int| lex_lt_at(a, b, k);
    let k2 = choose|k: int| lex_lt_at(b, c, k);
    let k = if k1 <= k2 { k1 } else { k2 };
    assert forall|j: int| 0 <= j < k implies #[trigger] a[j] == c[j] by {
        assert(a[j] == b[j]);
        assert(b[j] == c[j]);
    }
    if k1 < k2 {
        assert(b[k1] == c[k1]);
    } else if k2 < k1 {
        assert(a[k2] == b[k2]);
    }
    assert(lex_lt_at(a, c, k));
}

/// Distinct sequences are ordered one way or the other.
pub proof fn lemma_lex_total(a: Seq<char>, b: Seq<char>)
    requires
        a != b,
    ensures
        lex_lt(a, b) || lex_lt(b, a),
{
    if forall|j: int| 0 <= j < a.len() && j < b.len() ==> #[trigger] a[j] == b[j] {
        if a.len() < b.len() {
            assert(lex_lt_at(a, b, a.len() as int));
        } else if b.len() < a.len() {
            assert(lex_lt_at(b, a, b.len() as int));
        } else {
            assert(a =~= b);
        }
    } else {
        let w = choose|j: int| 0 <= j < a.len() && j < b.len() && a[j] != b[j];
        let k = first_difference(a, b, w);
        if (a[k] as u32) < (b[k] as u32) {
            assert(lex_lt_at(a, b, k));
        } else {
            lemma_char_code_injective(a[k], b[k]);
            assert(lex_lt_at(b, a, k));
        }
    }
}

/// Distinct characters have distinct code points.
proof fn lemma_char_code_injective(a: char, b: char)
    requires
        a != b,
    ensures
        (a as u32) != (b as u32),
{
}

/// A position where `a` and `b` first differ, at or before `w`.
proof fn first_difference(a: Seq<char>, b: Seq<char>, w: int) -> (k: int)
    requires
        0 <= w < a.len(),
        w < b.len(),
        a[w] != b[w],
    ensures
        0 <= k <= w,
        a[k] != b[k],
        forall|j: int| 0 <= j < k ==> #[trigger] a[j] == b[j],
    decreases w,
{
    if forall|j: int| 0 <= j < w ==> #[trigger] a[j] == b[j] {
        w
    } else {
        let v = choose|j: int| 0 <= j < w && a[j] != b[j];
        first_difference(a, b, v)
    }
}

/// Whether `a` comes strictly before `b` in lexicographic order.
pub fn str_lt(a: &str, b: &str) -> (r: bool)
    ensures
        r == lex_lt(a@, b@),
{
    let la = a.unicode_len();
    let lb = b.unicode_len();
    let mut i: usize = 0;
    while i < la && i < lb
        invariant
            la == a@.len(),
            lb == b@.len(),
            i <= la,
            i <= lb,
            forall|j: int| 0 <= j < i ==> #[trigger] a@[j] == b@[j],
        decreases la - i,
    {
        let ca = a.get_char(i);
        let cb = b.get_char(i);
        if ca != cb {
            if (ca as u32) < (cb as u32) {
                assert(lex_lt_at(a@, b@, i as int));
                return true;
            } else {
                proof {
                    assert(ca as u32 != cb as u32);
                    if lex_lt(a@, b@) {
                        let k = choose|k: int| lex_lt_at(a@, b@, k);
                        if k < i {
                            assert(a@[k] == b@[k]);
                        } else if k > i {
                            assert(a@[i as int] == b@[i as int]);
                        }
                    }
                }
                return false;
            }
        }
        i += 1;
    }
    if i == la && i < lb {
        assert(lex_lt_at(a@, b@, i as int));
        true
    } else {
        proof {
            if lex_lt(a@, b@) {
                let k = choose|k: int| lex_lt_at(a@, b@, k);
                if k < i {
                    assert(a@[k] == b@[k]);
                }
            }
        }
        false
    }
}

/// Distinct text values of `s`, as a set.
pub open spec fn text_set(s: Seq<String>) -> Set<Seq<char>> {
    Set::new(|x: Seq<char>| exists|i: int| 0 <= i < s.len() && #[trigger] s[i]@ == x)
}

/// Strictly increasing in lexicographic order (so also free of duplicates).
pub open spec fn strictly_sorted(s: Seq<String>) -> bool {
    forall|i: int, j: int| 0 <= i < j < s.len() ==> lex_lt(#[trigger] s[i]@, #[trigger] s[j]@)
}

pub proof fn lemma_text_set_push(s: Seq<String>, e: String)
    ensures
        text_set(s.push(e)) == text_set(s).insert(e@),
{
    assert forall|x: Seq<char>| text_set(s.push(e)).contains(x) <==> text_set(s).insert(e@).contains(x) by {
        if text_set(s.push(e)).contains(x) {
            let i = choose|i: int| 0 <= i < s.push(e).len() && #[trigger] s.push(e)[i]@ == x;
            if i < s.len() {
                assert(s[i]@ == x);
            }
        }
        if text_set(s).contains(x) {
            let i = choose|i: int| 0 <= i < s.len() && #[trigger] s[i]@ == x;
            assert(s.push(e)[i]@ == x);
        }
        if x == e@ {
            assert(s.push(e)[s.len() as int]@ == x);
        }
    }
    assert(text_set(s.push(e)) =~= text_set(s).insert(e@));
}

/// The values of `v` other than `x`, in order.
pub fn without_text(v: &Vec<String>, x: &String) -> (r: Vec<String>)
    ensures
        text_set(r@) == text_set(v@).remove(x@),
        r@.len() <= v@.len(),
        text_set(v@).contains(x@) ==> r@.len() < v@.len(),
{
    let mut kept: Vec<String> = Vec::new();
    let mut i: usize = 0;
    proof {
        assert(text_set(v@.take(0)) =~= Set::<Seq<char>>::empty());
        assert(text_set(kept@) =~= Set::<Seq<char>>::empty());
    }
    while i < v.len()
        invariant
            i <= v@.len(),
            text_set(kept@) == text_set(v@.take(i as int)).remove(x@),
            kept@.len() <= i,
            text_set(v@.take(i as int)).contains(x@) ==> kept@.len() < i,
        decreases v@.len() - i,
    {
        proof {
            assert(v@.take(i + 1) =~= v@.take(i as int).push(v@[i as int]));
            lemma_text_set_push(v@.take(i as int), v@[i as int]);
        }
        if v[i] != *x {
            proof {
                lemma_text_set_push(kept@, v@[i as int]);
            }
            kept.push(v[i].clone());
            proof {
                assert(text_set(kept@) =~= text_set(v@.take(i + 1)).remove(x@));
            }
        } else {
            proof {
                assert(text_set(kept@) =~= text_set(v@.take(i + 1)).remove(x@));
            }
        }
        i += 1;
    }
    proof {
        assert(v@.take(v@.len() as int) =~= v@);
    }
    kept
}

/// The distinct values of `input`, sorted in ascending lexicographic order.
pub fn sorted_distinct(input: Vec<String>) -> (out: Vec<String>)
    ensures
        strictly_sorted(out@),
        text_set(out@) == text_set(input@),
{
    let ghost all = input@;
    let mut rem = input;
    let mut out: Vec<String> = Vec::new();
    while rem.len() > 0
        invariant
            strictly_sorted(out@),
            forall|i: int, q: int| 0 <= i < out@.len() && 0 <= q < rem@.len()
                ==> lex_lt(#[trigger] out@[i]@, #[trigger] rem@[q]@),
            forall|x: Seq<char>| text_set(all).contains(x) <==> (text_set(out@).contains(x) || text_set(rem@).contains(x)),
        decreases rem@.len(),
    {
        let mut best: usize = 0;
        let mut q: usize = 1;
        while q < rem.len()
            invariant
                rem@.len() > 0,
                best < q <= rem@.len(),
                forall|r: int| 0 <= r < q ==> rem@[best as int]@ == #[trigger] rem@[r]@ || lex_lt(rem@[best as int]@, rem@[r]@),
            decreases rem@.len() - q,
        {
            if str_lt(rem[q].as_str(), rem[best].as_str()) {
                proof {
                    assert forall|r: int| 0 <= r < q + 1 implies rem@[q as int]@ == #[trigger] rem@[r]@ || lex_lt(rem@[q as int]@, rem@[r]@) by {
                        if r < q {
                            if rem@[best as int]@ != rem@[r]@ {
                                lemma_lex_transitive(rem@[q as int]@, rem@[best as int]@, rem@[r]@);
                            }
                        }
                    }
                }
                best = q;
            } else {
                proof {
                    if rem@[q as int]@ != rem@[best as int]@ {
                        lemma_lex_total(rem@[q as int]@, rem@[best as int]@);
                    }
                }
            }
            q += 1;
        }
        let chosen = rem[best].clone();
        let ghost before = rem@;
        let ghost outb = out@;
        let kept = without_text(&rem, &chosen);
        proof {
            assert(text_set(before).contains(chosen@)) by {
                assert(before[best as int]@ == chosen@);
            }
        }
        proof {
            assert forall|i: int| 0 <= i < outb.len() implies lex_lt(#[trigger] outb[i]@, chosen@) by {
                assert(lex_lt(outb[i]@, before[best as int]@));
            }
            assert forall|k: int| 0 <= k < kept@.len() implies lex_lt(chosen@, #[trigger] kept@[k]@) by {
                assert(text_set(kept@).contains(kept@[k]@));
                let p = choose|p: int| 0 <= p < before.len() && #[trigger] before[p]@ == kept@[k]@;
                assert(before[best as int]@ == before[p]@ || lex_lt(before[best as int]@, before[p]@));
            }
            lemma_text_set_push(outb, chosen);
        }
        out.push(chosen);
        rem = kept;
        proof {
            assert(strictly_sorted(out@)) by {
                assert forall|i: int, j: int| 0 <= i < j < out@.len() implies lex_lt(#[trigger] out@[i]@, #[trigger] out@[j]@) by {
                    if j < out@.len() - 1 {
                        assert(out@[i] == outb[i]);
                        assert(out@[j] == outb[j]);
                    } else {
                        assert(out@[i] == outb[i]);
                    }
                }
            }
            assert forall|i: int, q: int| 0 <= i < out@.len() && 0 <= q < rem@.len() implies lex_lt(#[trigger] out@[i]@, #[trigger] rem@[q]@) by {
                if i < outb.len() {
                    assert(out@[i] == outb[i]);
                    lemma_lex_transitive(outb[i]@, chosen@, rem@[q]@);
                }
            }
            assert forall|x: Seq<char>| text_set(all).contains(x) <==> (text_set(out@).contains(x) || text_set(rem@).contains(x)) by {
                assert(out@ == outb.push(chosen));
            }
        }
    }
    proof {
        assert forall|x: Seq<char>| text_set(out@).contains(x) <==> text_set(all).contains(x) by {
            if text_set(rem@).contains(x) {
                let q = choose|q: int| 0 <= q < rem@.len() && #[trigger] rem@[q]@ == x;
            }
        }
        assert(text_set(out@) =~= text_set(all));
    }
    out
}

} // verus!
