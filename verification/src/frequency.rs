//! Character frequency analysis: a histogram over the characters of a text,
//! queried for charset membership and for the most common characters.
//!
//! The histogram keeps one entry per distinct character, in order of first
//! occurrence, with its exact occurrence count; the text is counted by
//! character, not by byte.

use vstd::prelude::*;

use crate::ranking::insert_desc;
use crate::ranking::lemma_insert_desc_at;
use crate::ranking::lemma_insert_desc_len;
use crate::ranking::lemma_sort_desc_len;
use crate::ranking::lemma_sort_desc_sorted;
use crate::ranking::sort_desc;
use crate::text::base64_char;
use crate::text::chars_vec;
use crate::text::hex_char;
use crate::text::is_base64_char;
use crate::text::is_hex_char;

verus! {

/// How many characters of `s` are exactly `c`.
pub open spec fn count_char(s: Seq<char>, c: char) -> nat
    decreases s.len(),
{
    if s.len() == 0 {
        0
    } else {
        count_char(s.drop_last(), c) + (if s.last() == c {
            1nat
        } else {
            0nat
        })
    }
}

/// The distinct characters of `s`, in order of first occurrence.
pub open spec fn firsts(s: Seq<char>) -> Seq<char>
    decreases s.len(),
{
    if s.len() == 0 {
        Seq::empty()
    } else {
        let p = firsts(s.drop_last());
        if p.contains(s.last()) {
            p
        } else {
            p.push(s.last())
        }
    }
}

/// The count each histogram entry is ranked by.
pub open spec fn pair_count(p: (char, usize)) -> int {
    p.1 as int
}

/// Histogram of a text: one `(character, count)` entry per distinct
/// character, in order of first occurrence.
pub struct FrequencyAnalysis {
    pub hist: Vec<(char, usize)>,
    pub total_chars: usize,
    pub text: Ghost<Seq<char>>,
}

proof fn lemma_count_push(s: Seq<char>, d: char, c: char)
    ensures
        count_char(s.push(d), c) == count_char(s, c) + (if d == c {
            1int
        } else {
            0int
        }),
{
    assert(s.push(d).drop_last() =~= s);
}

proof fn lemma_firsts_contains(s: Seq<char>, c: char)
    ensures
        firsts(s).contains(c) <==> s.contains(c),
    decreases s.len(),
{
    if s.len() > 0 {
        let p = s.drop_last();
        lemma_firsts_contains(p, c);
        if s.contains(c) {
            let i = choose|i: int| 0 <= i < s.len() && s[i] == c;
            if i < s.len() - 1 {
                assert(p[i] == c);
                assert(p.contains(c));
            } else {
                assert(s.last() == c);
            }
            if !firsts(s).contains(c) {
                if firsts(p).contains(c) {
                    let t = choose|t: int| 0 <= t < firsts(p).len() && firsts(p)[t] == c;
                    if firsts(p).contains(s.last()) {
                        assert(firsts(s)[t] == c);
                    } else {
                        assert(firsts(s) == firsts(p).push(s.last()));
                        assert(firsts(s)[t] == c);
                    }
                    assert(false);
                } else {
                    assert(!p.contains(c));
                    assert(firsts(s) == firsts(p).push(s.last()));
                    assert(firsts(s).last() == s.last());
                    assert(firsts(s).contains(firsts(s).last()));
                    assert(false);
                }
            }
        } else {
            if firsts(s).contains(c) {
                if firsts(p).contains(c) {
                    assert(p.contains(c));
                    let i = choose|i: int| 0 <= i < p.len() && p[i] == c;
                    assert(s[i] == c);
                    assert(false);
                } else {
                    assert(firsts(s) == firsts(p).push(s.last()));
                    let i = choose|i: int| 0 <= i < firsts(s).len() && firsts(s)[i] == c;
                    if i < firsts(s).len() - 1 {
                        assert(firsts(p)[i] == c);
                        assert(firsts(p).contains(c));
                        assert(false);
                    } else {
                        assert(s.last() == c);
                        assert(s.contains(s.last()));
                        assert(false);
                    }
                }
            }
        }
    }
}

fn count_occurrences(chars: &Vec<char>, c: char) -> (r: usize)
    ensures
        r == count_char(chars@, c),
{
    let mut r: usize = 0;
    let mut i: usize = 0;
    proof {
        assert(chars@.take(0) =~= Seq::<char>::empty());
    }
    while i < chars.len()
        invariant
            i <= chars@.len(),
            r == count_char(chars@.take(i as int), c),
            r <= i,
        decreases chars@.len() - i,
    {
        proof {
            assert(chars@.take(i as int).push(chars@[i as int]) =~= chars@.take(i + 1));
            lemma_count_push(chars@.take(i as int), chars@[i as int], c);
        }
        if chars[i] == c {
            r = r + 1;
        }
        i = i + 1;
    }
    proof {
        assert(chars@.take(chars@.len() as int) =~= chars@);
    }
    r
}

fn contains_char(v: &Vec<char>, c: char) -> (r: bool)
    ensures
        r == v@.contains(c),
{
    let mut i: usize = 0;
    while i < v.len()
        invariant
            i <= v@.len(),
            forall|t: int| 0 <= t < i ==> v@[t] != c,
        decreases v@.len() - i,
    {
        if v[i] == c {
            return true;
        }
        i = i + 1;
    }
    false
}

impl FrequencyAnalysis {
    /// The histogram matches the recorded text: keys are its distinct
    /// characters in first-occurrence order, each with its exact count,
    /// and the total is the character count of the text.
    pub open spec fn wf(self) -> bool {
        &&& self.hist@.map_values(|p: (char, usize)| p.0) == firsts(self.text@)
        &&& forall|j: int|
            0 <= j < self.hist@.len() ==> self.hist@[j].1 == count_char(
                self.text@,
                self.hist@[j].0,
            )
        &&& self.total_chars == self.text@.len()
    }

    /// Histogram of a text already split into characters.
    pub fn from_chars(chars: &Vec<char>) -> (r: Self)
        ensures
            r.wf(),
            r.text@ == chars@,
    {
        let ghost s = chars@;
        let mut seen: Vec<char> = Vec::new();
        let mut i: usize = 0;
        proof {
            assert(s.take(0) =~= Seq::<char>::empty());
        }
        while i < chars.len()
            invariant
                i <= s.len(),
                s == chars@,
                seen@ == firsts(s.take(i as int)),
            decreases s.len() - i,
        {
            let c = chars[i];
            proof {
                assert(s.take(i + 1).drop_last() =~= s.take(i as int));
                assert(s.take(i + 1).last() == c);
            }
            let found = contains_char(&seen, c);
            if !found {
                seen.push(c);
            }
            i = i + 1;
        }
        proof {
            assert(s.take(s.len() as int) =~= s);
        }
        let mut hist: Vec<(char, usize)> = Vec::new();
        let mut k: usize = 0;
        while k < seen.len()
            invariant
                k <= seen@.len(),
                s == chars@,
                seen@ == firsts(s),
                hist@.len() == k,
                forall|j: int|
                    0 <= j < k ==> (#[trigger] hist@[j]).0 == seen@[j] && hist@[j].1 == count_char(
                        s,
                        seen@[j],
                    ),
            decreases seen@.len() - k,
        {
            let c = seen[k];
            let cnt = count_occurrences(chars, c);
            hist.push((c, cnt));
            k = k + 1;
        }
        let r = FrequencyAnalysis { hist, total_chars: chars.len(), text: Ghost(chars@) };
        proof {
            assert(r.hist@.map_values(|p: (char, usize)| p.0) =~= firsts(s));
        }
        r
    }

    /// Histogram of the characters of `text`.
    pub fn new(text: &str) -> (r: Self)
        ensures
            r.wf(),
            r.text@ == text@,
    {
        let v = chars_vec(text);
        Self::from_chars(&v)
    }

    /// Up to `n` histogram entries, most common first.  The ranking is the
    /// stable descending sort of the histogram by count: among equal counts
    /// the character that occurred first in the text comes first.
    pub fn most_common_chars(&self, n: usize) -> (r: Vec<(char, usize)>)
        requires
            self.wf(),
        ensures
            r@ == sort_desc(self.hist@, |p: (char, usize)| pair_count(p)).take(
                if n <= self.hist@.len() {
                    n as int
                } else {
                    self.hist@.len() as int
                },
            ),
    {
        let ghost key = |p: (char, usize)| pair_count(p);
        let ghost h = self.hist@;
        let mut v: Vec<(char, usize)> = Vec::new();
        let mut i: usize = 0;
        while i < self.hist.len()
            invariant
                i <= h.len(),
                h == self.hist@,
                v@ == h.take(i as int),
            decreases h.len() - i,
        {
            v.push(self.hist[i]);
            proof {
                assert(v@ =~= h.take(i + 1));
            }
            i = i + 1;
        }
        proof {
            assert(h.take(h.len() as int) =~= h);
        }
        let mut sorted_len: usize = if v.len() > 1 {
            1
        } else {
            v.len()
        };
        proof {
            if h.len() > 0 {
                let t1 = h.take(1);
                assert(t1.drop_last() =~= Seq::<(char, usize)>::empty());
                assert(sort_desc(Seq::<(char, usize)>::empty(), key) == Seq::<(
                    char,
                    usize,
                )>::empty());
                assert(sort_desc(t1, key) == insert_desc(
                    Seq::<(char, usize)>::empty(),
                    t1.last(),
                    key,
                ));
                assert(sort_desc(t1, key) == seq![t1.last()]);
                assert(seq![t1.last()] =~= t1);
                assert(v@.subrange(0, 1) =~= h.take(1));
            }
            assert(v@.subrange(sorted_len as int, h.len() as int) =~= h.subrange(
                sorted_len as int,
                h.len() as int,
            ));
            if h.len() == 0 {
                assert(sort_desc(h.take(0), key) =~= h.take(0));
            }
        }
        while sorted_len < v.len()
            invariant
                sorted_len <= h.len(),
                v@.len() == h.len(),
                h.len() > 1 ==> sorted_len >= 1,
                v@.subrange(0, sorted_len as int) == sort_desc(h.take(sorted_len as int), key),
                v@.subrange(sorted_len as int, h.len() as int) == h.subrange(
                    sorted_len as int,
                    h.len() as int,
                ),
                key == (|p: (char, usize)| pair_count(p)),
            decreases h.len() - sorted_len,
        {
            let ghost prefix = v@.subrange(0, sorted_len as int);
            proof {
                lemma_sort_desc_sorted(h.take(sorted_len as int), key);
                lemma_sort_desc_len(h.take(sorted_len as int), key);
            }
            let x: (char, usize) = v[sorted_len];
            proof {
                assert(v@[sorted_len as int] == h.subrange(sorted_len as int, h.len() as int)[0]);
                assert(x == h[sorted_len as int]);
            }
            let mut j: usize = 0;
            while j < sorted_len && v[j].1 >= x.1
                invariant
                    j <= sorted_len,
                    sorted_len < v@.len(),
                    forall|t: int| 0 <= t < j ==> (#[trigger] v@[t]).1 >= x.1,
                    v@.subrange(0, sorted_len as int) == prefix,
                decreases sorted_len - j,
            {
                j = j + 1;
            }
            let ghost vpre = v@;
            let moved: (char, usize) = v.remove(sorted_len);
            proof {
                let ln = h.len() as int;
                let sl = sorted_len as int;
                assert forall|t: int| sl <= t < ln implies vpre[t] == h[t] by {
                    assert(vpre.subrange(sl, ln)[t - sl] == h.subrange(sl, ln)[t - sl]);
                }
                assert forall|t: int| 0 <= t < sl implies vpre[t] == prefix[t] by {
                    assert(vpre.subrange(0, sl)[t] == prefix[t]);
                }
                assert(v@ =~= prefix + h.subrange(sl + 1, ln));
            }
            let ghost vmid = v@;
            v.insert(j, moved);
            proof {
                assert(moved == x);
                assert(v@ =~= vmid.subrange(0, j as int) + seq![x] + vmid.subrange(
                    j as int,
                    vmid.len() as int,
                ));
                assert(vmid.subrange(0, j as int) =~= prefix.subrange(0, j as int));
                assert forall|t: int| 0 <= t < j implies key(prefix[t]) >= key(x) by {
                    assert(prefix[t] == v@.subrange(0, sorted_len as int + 1)[t]);
                }
                if j < sorted_len {
                    assert(prefix[j as int].1 < x.1);
                }
                lemma_insert_desc_at(prefix, x, key, j as int);
                assert(h.take(sorted_len as int + 1).drop_last() =~= h.take(sorted_len as int));
                assert(h.take(sorted_len as int + 1).last() == h[sorted_len as int]);
                assert(sort_desc(h.take(sorted_len as int + 1), key) == insert_desc(
                    sort_desc(h.take(sorted_len as int), key),
                    h[sorted_len as int],
                    key,
                ));
                assert(v@.subrange(0, sorted_len as int + 1) =~= prefix.subrange(0, j as int) + seq![
                    x,
                ] + prefix.subrange(j as int, prefix.len() as int));
                assert(v@.subrange(sorted_len as int + 1, h.len() as int) =~= h.subrange(
                    sorted_len as int + 1,
                    h.len() as int,
                ));
            }
            sorted_len = sorted_len + 1;
        }
        proof {
            assert(h.take(h.len() as int) =~= h);
            assert(v@.subrange(0, h.len() as int) =~= v@);
        }
        v.truncate(n);
        proof {
            if n <= h.len() {
                assert(sort_desc(h, key).take(n as int) =~= sort_desc(h, key).subrange(
                    0,
                    n as int,
                ));
            } else {
                assert(sort_desc(h, key).take(h.len() as int) =~= sort_desc(h, key));
            }
        }
        v
    }

    /// Whether every character of the text is an ASCII hex digit.
    pub fn is_hex_only(&self) -> (r: bool)
        requires
            self.wf(),
        ensures
            r == (forall|i: int| 0 <= i < self.text@.len() ==> hex_char(#[trigger] self.text@[i])),
    {
        let mut j: usize = 0;
        let mut all: bool = true;
        while j < self.hist.len()
            invariant
                j <= self.hist@.len(),
                all == (forall|t: int| 0 <= t < j ==> hex_char((#[trigger] self.hist@[t]).0)),
            decreases self.hist@.len() - j,
        {
            if !is_hex_char(self.hist[j].0) {
                all = false;
            }
            j = j + 1;
        }
        proof {
            let s = self.text@;
            let keys = self.hist@.map_values(|p: (char, usize)| p.0);
            if all {
                assert forall|i: int| 0 <= i < s.len() implies hex_char(#[trigger] s[i]) by {
                    lemma_firsts_contains(s, s[i]);
                    assert(s.contains(s[i]));
                    assert(keys.contains(s[i]));
                    let t = choose|t: int| 0 <= t < keys.len() && keys[t] == s[i];
                    assert(self.hist@[t].0 == s[i]);
                }
            } else {
                let t = choose|t: int| 0 <= t < self.hist@.len() && !hex_char(self.hist@[t].0);
                let c = self.hist@[t].0;
                assert(keys[t] == c);
                assert(keys.contains(c));
                lemma_firsts_contains(s, c);
                assert(s.contains(c));
                let i = choose|i: int| 0 <= i < s.len() && s[i] == c;
                assert(!hex_char(s[i]));
            }
        }
        all
    }

    /// Whether every character of the text belongs to the Base64 alphabet
    /// (ASCII alphanumeric, `+`, `/` or `=`).
    pub fn is_base64_charset(&self) -> (r: bool)
        requires
            self.wf(),
        ensures
            r == (forall|i: int|
                0 <= i < self.text@.len() ==> base64_char(#[trigger] self.text@[i])),
    {
        let mut j: usize = 0;
        let mut all: bool = true;
        while j < self.hist.len()
            invariant
                j <= self.hist@.len(),
                all == (forall|t: int| 0 <= t < j ==> base64_char((#[trigger] self.hist@[t]).0)),
            decreases self.hist@.len() - j,
        {
            if !is_base64_char(self.hist[j].0) {
                all = false;
            }
            j = j + 1;
        }
        proof {
            let s = self.text@;
            let keys = self.hist@.map_values(|p: (char, usize)| p.0);
            if all {
                assert forall|i: int| 0 <= i < s.len() implies base64_char(#[trigger] s[i]) by {
                    lemma_firsts_contains(s, s[i]);
                    assert(s.contains(s[i]));
                    assert(keys.contains(s[i]));
                    let t = choose|t: int| 0 <= t < keys.len() && keys[t] == s[i];
                    assert(self.hist@[t].0 == s[i]);
                }
            } else {
                let t = choose|t: int| 0 <= t < self.hist@.len() && !base64_char(self.hist@[t].0);
                let c = self.hist@[t].0;
                assert(keys[t] == c);
                assert(keys.contains(c));
                lemma_firsts_contains(s, c);
                assert(s.contains(c));
                let i = choose|i: int| 0 <= i < s.len() && s[i] == c;
                assert(!base64_char(s[i]));
            }
        }
        all
    }
}

} // verus!
