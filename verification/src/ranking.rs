//! Stable descending ordering by an integer key.
//!
//! Candidate lists are ranked by confidence, and histograms by count, with
//! the same deterministic rule: higher key first, and among equal keys the
//! earlier-inserted element stays first.  The specification-level insertion
//! sort here is the single definition both rankings are proved against.

use vstd::prelude::*;

use crate::types::CipherType;
use crate::types::DetectionResult;
use crate::types::result_model;
use crate::types::results_model;

verus! {

/// The key candidate lists are ranked by: the confidence of the model.
pub open spec fn confidence_key(m: (CipherType, u64, Seq<Seq<char>>)) -> int {
    m.1 as int
}

/// The models of a candidate list after ranking it: its stable descending
/// sort by confidence.
pub open spec fn ranked_models(s: Seq<(CipherType, u64, Seq<Seq<char>>)>) -> Seq<
    (CipherType, u64, Seq<Seq<char>>),
> {
    sort_desc(s, |m: (CipherType, u64, Seq<Seq<char>>)| confidence_key(m))
}

/// `x` placed into `r` before the first element with a strictly smaller
/// key, after every element with an equal or larger key.
pub open spec fn insert_desc<T>(r: Seq<T>, x: T, key: spec_fn(T) -> int) -> Seq<T>
    decreases r.len(),
{
    if r.len() == 0 {
        seq![x]
    } else if key(x) > key(r[0]) {
        seq![x] + r
    } else {
        seq![r[0]] + insert_desc(r.subrange(1, r.len() as int), x, key)
    }
}

/// Stable descending sort by `key`: insertion sort, element by element.
pub open spec fn sort_desc<T>(s: Seq<T>, key: spec_fn(T) -> int) -> Seq<T>
    decreases s.len(),
{
    if s.len() == 0 {
        s
    } else {
        insert_desc(sort_desc(s.drop_last(), key), s.last(), key)
    }
}

/// Keys never increase along the sequence.
pub open spec fn sorted_desc<T>(s: Seq<T>, key: spec_fn(T) -> int) -> bool {
    forall|i: int, j: int| 0 <= i < j < s.len() ==> key(s[i]) >= key(s[j])
}

pub proof fn lemma_insert_desc_len<T>(r: Seq<T>, x: T, key: spec_fn(T) -> int)
    ensures
        insert_desc(r, x, key).len() == r.len() + 1,
    decreases r.len(),
{
    if r.len() > 0 && !(key(x) > key(r[0])) {
        lemma_insert_desc_len(r.subrange(1, r.len() as int), x, key);
    }
}

pub proof fn lemma_sort_desc_len<T>(s: Seq<T>, key: spec_fn(T) -> int)
    ensures
        sort_desc(s, key).len() == s.len(),
    decreases s.len(),
{
    if s.len() > 0 {
        lemma_sort_desc_len(s.drop_last(), key);
        lemma_insert_desc_len(sort_desc(s.drop_last(), key), s.last(), key);
    }
}

pub proof fn lemma_insert_desc_sorted<T>(r: Seq<T>, x: T, key: spec_fn(T) -> int)
    requires
        sorted_desc(r, key),
    ensures
        sorted_desc(insert_desc(r, x, key), key),
        forall|e: T| insert_desc(r, x, key).contains(e) ==> e == x || r.contains(e),
    decreases r.len(),
{
    let out = insert_desc(r, x, key);
    lemma_insert_desc_len(r, x, key);
    if r.len() == 0 {
    } else if key(x) > key(r[0]) {
        assert(out =~= seq![x] + r);
        assert forall|i: int, j: int| 0 <= i < j < out.len() implies key(out[i]) >= key(
            out[j],
        ) by {
            if i > 0 {
                assert(out[i] == r[i - 1] && out[j] == r[j - 1]);
            } else {
                if j > 0 {
                    assert(out[j] == r[j - 1]);
                    if j - 1 > 0 {
                        assert(key(r[0]) >= key(r[j - 1]));
                    }
                }
            }
        }
        assert forall|e: T| out.contains(e) implies e == x || r.contains(e) by {
            let i = choose|i: int| 0 <= i < out.len() && out[i] == e;
            if i > 0 {
                assert(r[i - 1] == e);
            }
        }
    } else {
        let tail = r.subrange(1, r.len() as int);
        assert(sorted_desc(tail, key));
        lemma_insert_desc_sorted(tail, x, key);
        lemma_insert_desc_len(tail, x, key);
        let sub = insert_desc(tail, x, key);
        assert(out =~= seq![r[0]] + sub);
        assert forall|i: int, j: int| 0 <= i < j < out.len() implies key(out[i]) >= key(
            out[j],
        ) by {
            if i > 0 {
                assert(out[i] == sub[i - 1] && out[j] == sub[j - 1]);
            } else {
                assert(out[j] == sub[j - 1]);
                assert(sub.contains(sub[j - 1]));
                let e = sub[j - 1];
                if e == x {
                    assert(key(out[0]) >= key(e));
                } else {
                    assert(tail.contains(e));
                    let t = choose|t: int| 0 <= t < tail.len() && tail[t] == e;
                    assert(tail[t] == r[t + 1]);
                    assert(key(r[0]) >= key(r[t + 1]));
                }
            }
        }
        assert forall|e: T| out.contains(e) implies e == x || r.contains(e) by {
            let i = choose|i: int| 0 <= i < out.len() && out[i] == e;
            if i == 0 {
                assert(r.contains(r[0]));
            } else {
                assert(sub[i - 1] == e);
                assert(sub.contains(e));
                if e != x {
                    assert(tail.contains(e));
                    let t = choose|t: int| 0 <= t < tail.len() && tail[t] == e;
                    assert(r[t + 1] == e);
                    assert(r.contains(r[t + 1]));
                }
            }
        }
    }
}

/// The ranking really is sorted: keys never increase along it.
pub proof fn lemma_sort_desc_sorted<T>(s: Seq<T>, key: spec_fn(T) -> int)
    ensures
        sorted_desc(sort_desc(s, key), key),
    decreases s.len(),
{
    if s.len() > 0 {
        lemma_sort_desc_sorted(s.drop_last(), key);
        lemma_insert_desc_sorted(sort_desc(s.drop_last(), key), s.last(), key);
    }
}

/// Where the insertion lands: before the first strictly smaller key.
pub proof fn lemma_insert_desc_at<T>(r: Seq<T>, x: T, key: spec_fn(T) -> int, j: int)
    requires
        0 <= j <= r.len(),
        forall|t: int| 0 <= t < j ==> key(r[t]) >= key(x),
        j < r.len() ==> key(r[j]) < key(x),
    ensures
        insert_desc(r, x, key) == r.subrange(0, j) + seq![x] + r.subrange(j, r.len() as int),
    decreases j,
{
    if j == 0 {
        if r.len() == 0 {
            assert(insert_desc(r, x, key) =~= r.subrange(0, 0) + seq![x] + r.subrange(
                0,
                r.len() as int,
            ));
        } else {
            assert(key(x) > key(r[0]));
            assert(insert_desc(r, x, key) =~= r.subrange(0, 0) + seq![x] + r.subrange(
                0,
                r.len() as int,
            ));
        }
    } else {
        assert(!(key(x) > key(r[0])));
        let tail = r.subrange(1, r.len() as int);
        lemma_insert_desc_at(tail, x, key, j - 1);
        assert(tail.subrange(0, j - 1) =~= r.subrange(1, j));
        assert(tail.subrange(j - 1, tail.len() as int) =~= r.subrange(j, r.len() as int));
        assert(seq![r[0]] + (r.subrange(1, j) + seq![x] + r.subrange(j, r.len() as int)) =~= r
            .subrange(0, j) + seq![x] + r.subrange(j, r.len() as int));
    }
}

/// Every element of the ranking was a candidate.
pub proof fn lemma_sort_desc_contains<T>(s: Seq<T>, key: spec_fn(T) -> int, e: T)
    requires
        sort_desc(s, key).contains(e),
    ensures
        s.contains(e),
    decreases s.len(),
{
    if s.len() > 0 {
        let p = s.drop_last();
        lemma_sort_desc_sorted(p, key);
        lemma_insert_desc_sorted(sort_desc(p, key), s.last(), key);
        if e == s.last() {
            assert(s.contains(s.last()));
        } else {
            assert(sort_desc(p, key).contains(e));
            lemma_sort_desc_contains(p, key, e);
            let i = choose|i: int| 0 <= i < p.len() && p[i] == e;
            assert(s[i] == e);
        }
    }
}

/// Sorts the candidate list in place: stable descending by confidence.
pub(crate) fn rank_results(v: &mut Vec<DetectionResult>)
    ensures
        results_model(final(v)@) == ranked_models(results_model(old(v)@)),
        final(v)@.len() == old(v)@.len(),
{
    let ghost key = |m: (CipherType, u64, Seq<Seq<char>>)| confidence_key(m);
    let ghost h = results_model(v@);
    let n: usize = v.len();
    let mut sorted_len: usize = if n > 1 {
        1
    } else {
        n
    };
    proof {
        assert(h.len() == n);
        if n > 0 {
            let t1 = h.take(1);
            assert(t1.drop_last() =~= Seq::<(CipherType, u64, Seq<Seq<char>>)>::empty());
            assert(sort_desc(Seq::<(CipherType, u64, Seq<Seq<char>>)>::empty(), key) == Seq::<
                (CipherType, u64, Seq<Seq<char>>),
            >::empty());
            assert(sort_desc(t1, key) == insert_desc(
                Seq::<(CipherType, u64, Seq<Seq<char>>)>::empty(),
                t1.last(),
                key,
            ));
            assert(sort_desc(t1, key) == seq![t1.last()]);
            assert(seq![t1.last()] =~= t1);
        }
        if n == 0 {
            assert(sort_desc(h.take(0), key) =~= h.take(0));
        }
        assert(results_model(v@).subrange(0, sorted_len as int) =~= h.take(sorted_len as int));
        assert(results_model(v@).subrange(sorted_len as int, n as int) =~= h.subrange(
            sorted_len as int,
            n as int,
        ));
    }
    while sorted_len < n
        invariant
            n == v@.len(),
            sorted_len <= n,
            n > 1 ==> sorted_len >= 1,
            h.len() == n,
            h == results_model(old(v)@),
            results_model(v@).subrange(0, sorted_len as int) == sort_desc(
                h.take(sorted_len as int),
                key,
            ),
            results_model(v@).subrange(sorted_len as int, n as int) == h.subrange(
                sorted_len as int,
                n as int,
            ),
            key == (|m: (CipherType, u64, Seq<Seq<char>>)| confidence_key(m)),
        decreases n - sorted_len,
    {
        let ghost prefix = results_model(v@).subrange(0, sorted_len as int);
        proof {
            lemma_sort_desc_sorted(h.take(sorted_len as int), key);
            lemma_sort_desc_len(h.take(sorted_len as int), key);
        }
        let ghost vpre = v@;
        let moved: DetectionResult = v.remove(sorted_len);
        let ghost xm = result_model(moved);
        proof {
            let ln = n as int;
            let sl = sorted_len as int;
            assert(result_model(vpre[sl]) == results_model(vpre)[sl]);
            assert(results_model(vpre).subrange(sl, ln)[0] == h.subrange(sl, ln)[0]);
            assert(xm == h[sl]);
            assert forall|t: int| 0 <= t < ln - 1 implies result_model(#[trigger] v@[t]) == (prefix
                + h.subrange(sl + 1, ln))[t] by {
                if t < sl {
                    assert(results_model(vpre).subrange(0, sl)[t] == prefix[t]);
                } else {
                    assert(v@[t] == vpre[t + 1]);
                    assert(results_model(vpre).subrange(sl, ln)[t + 1 - sl] == h.subrange(
                        sl,
                        ln,
                    )[t + 1 - sl]);
                }
            }
            assert(results_model(v@) =~= prefix + h.subrange(sl + 1, ln));
        }
        let ghost vmid = v@;
        let mut j: usize = 0;
        while j < sorted_len && v[j].confidence >= moved.confidence
            invariant
                j <= sorted_len,
                sorted_len < n,
                n == vmid.len() + 1,
                v@ == vmid,
                results_model(vmid).subrange(0, sorted_len as int) == prefix,
                prefix.len() == sorted_len,
                xm == result_model(moved),
                forall|t: int|
                    0 <= t < j ==> confidence_key(#[trigger] prefix[t]) >= confidence_key(xm),
            decreases sorted_len - j,
        {
            proof {
                assert(results_model(vmid)[j as int] == result_model(vmid[j as int]));
                assert(results_model(vmid).subrange(0, sorted_len as int)[j as int] == prefix[
                    j as int
                ]);
            }
            j = j + 1;
        }
        proof {
            if j < sorted_len {
                assert(results_model(vmid)[j as int] == result_model(vmid[j as int]));
                assert(results_model(vmid).subrange(0, sorted_len as int)[j as int] == prefix[
                    j as int
                ]);
                assert(confidence_key(prefix[j as int]) < confidence_key(xm));
            }
        }
        v.insert(j, moved);
        proof {
            let ln = n as int;
            let sl = sorted_len as int;
            lemma_insert_desc_at(prefix, xm, key, j as int);
            assert(h.take(sl + 1).drop_last() =~= h.take(sl));
            assert(h.take(sl + 1).last() == h[sl]);
            assert(sort_desc(h.take(sl + 1), key) == insert_desc(
                sort_desc(h.take(sl), key),
                h[sl],
                key,
            ));
            assert forall|t: int| 0 <= t < ln implies result_model(#[trigger] v@[t]) == (
            prefix.subrange(0, j as int) + seq![xm] + prefix.subrange(j as int, sl) + h.subrange(
                sl + 1,
                ln,
            ))[t] by {
                if t < j {
                    assert(v@[t] == vmid[t]);
                    assert(results_model(vmid).subrange(0, sl)[t] == prefix[t]);
                } else if t == j {
                    assert(v@[t] == moved);
                } else {
                    assert(v@[t] == vmid[t - 1]);
                    assert(result_model(vmid[t - 1]) == results_model(vmid)[t - 1]);
                    if t - 1 < sl {
                        assert(results_model(vmid).subrange(0, sl)[t - 1] == prefix[t - 1]);
                    }
                }
            }
            assert(results_model(v@) =~= prefix.subrange(0, j as int) + seq![xm] + prefix.subrange(
                j as int,
                sl,
            ) + h.subrange(sl + 1, ln));
            assert(results_model(v@).subrange(0, sl + 1) =~= prefix.subrange(0, j as int) + seq![
                xm,
            ] + prefix.subrange(j as int, sl));
            assert(results_model(v@).subrange(sl + 1, ln) =~= h.subrange(sl + 1, ln));
        }
        sorted_len = sorted_len + 1;
    }
    proof {
        assert(h.take(n as int) =~= h);
        assert(results_model(v@).subrange(0, n as int) =~= results_model(v@));
    }
}

} // verus!
