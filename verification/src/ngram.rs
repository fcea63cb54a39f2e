//! Word splitting and character n-gram extraction.
//!
//! A text is split into words at every script-neutral character, each
//! letter being lower-cased on the way.  For a requested order `n`, the
//! extractor yields the distinct length-`n` substrings of each word,
//! merged across the words of the unit with first-occurrence order and
//! per-unit deduplication.

use vstd::prelude::*;
use crate::script::{spec_is_letter, spec_lower, is_letter, lower};

verus! {

/// The deep view of a word is its plain view.
pub broadcast proof fn lemma_word_deep_view(v: Vec<u32>)
    ensures
        #[trigger] v.deep_view() == v@,
{
    assert(v.deep_view() =~= v@);
}

/// Words collected so far and the letters of the currently open word,
/// after reading a prefix of the code points.
pub open spec fn spec_words_state(cps: Seq<u32>) -> (Seq<Seq<u32>>, Seq<u32>)
    decreases cps.len(),
{
    if cps.len() == 0 {
        (Seq::empty(), Seq::empty())
    } else {
        let (ws, cur) = spec_words_state(cps.drop_last());
        let c = cps.last();
        if spec_is_letter(c) {
            (ws, cur.push(spec_lower(c)))
        } else if cur.len() > 0 {
            (ws.push(cur), Seq::empty())
        } else {
            (ws, cur)
        }
    }
}

/// The lower-cased words of a text: its maximal runs of letters.
pub open spec fn spec_words(cps: Seq<u32>) -> Seq<Seq<u32>> {
    let (ws, cur) = spec_words_state(cps);
    if cur.len() > 0 {
        ws.push(cur)
    } else {
        ws
    }
}

/// Every word of a text is nonempty.
pub proof fn lemma_words_state_nonempty(cps: Seq<u32>)
    ensures
        forall|k: int|
            0 <= k < spec_words_state(cps).0.len() ==> spec_words_state(cps).0[k].len() > 0,
    decreases cps.len(),
{
    if cps.len() > 0 {
        lemma_words_state_nonempty(cps.drop_last());
        let (ws0, cur0) = spec_words_state(cps.drop_last());
        let st = spec_words_state(cps);
        assert forall|k: int| 0 <= k < st.0.len() implies st.0[k].len() > 0 by {
            if !spec_is_letter(cps.last()) && cur0.len() > 0 {
                if k < ws0.len() {
                    assert(st.0[k] == ws0[k]);
                } else {
                    assert(st.0[k] == cur0);
                }
            } else {
                assert(st.0[k] == ws0[k]);
            }
        }
    }
}

pub proof fn lemma_words_nonempty(cps: Seq<u32>)
    ensures
        forall|k: int| 0 <= k < spec_words(cps).len() ==> spec_words(cps)[k].len() > 0,
{
    lemma_words_state_nonempty(cps);
}

/// Length of the shortest word of a nonempty unit.
pub open spec fn spec_min_len(words: Seq<Seq<u32>>) -> int
    decreases words.len(),
{
    if words.len() == 0 {
        0
    } else if words.len() == 1 {
        words[0].len() as int
    } else {
        let rest = spec_min_len(words.drop_last());
        if words.last().len() < rest {
            words.last().len() as int
        } else {
            rest
        }
    }
}

/// Highest n-gram order used for a unit: the scorer walks orders one up
/// to five, but never beyond the shortest constituent word.
pub open spec fn spec_max_order(words: Seq<Seq<u32>>) -> int {
    if spec_min_len(words) < 5 {
        spec_min_len(words)
    } else {
        5
    }
}

/// All length-`n` substrings of one word, in order of their start
/// position; empty when the word is shorter than `n`.
pub open spec fn spec_subs(w: Seq<u32>, n: int) -> Seq<Seq<u32>> {
    if n <= 0 || w.len() < n {
        Seq::empty()
    } else {
        Seq::new((w.len() - n + 1) as nat, |i: int| w.subrange(i, i + n))
    }
}

/// The length-`n` substrings of every word of a unit, concatenated in
/// word order.
pub open spec fn spec_flat(words: Seq<Seq<u32>>, n: int) -> Seq<Seq<u32>>
    decreases words.len(),
{
    if words.len() == 0 {
        Seq::empty()
    } else {
        spec_flat(words.drop_last(), n) + spec_subs(words.last(), n)
    }
}

/// First-occurrence deduplication of a sequence of n-grams.
pub open spec fn spec_dedup(s: Seq<Seq<u32>>) -> Seq<Seq<u32>>
    decreases s.len(),
{
    if s.len() == 0 {
        Seq::empty()
    } else {
        let d = spec_dedup(s.drop_last());
        if s.drop_last().contains(s.last()) {
            d
        } else {
            d.push(s.last())
        }
    }
}

/// Deduplication keeps exactly the members and never grows.
pub proof fn lemma_dedup_properties(s: Seq<Seq<u32>>)
    ensures
        spec_dedup(s).len() <= s.len(),
        forall|g: Seq<u32>| spec_dedup(s).contains(g) <==> s.contains(g),
    decreases s.len(),
{
    if s.len() == 0 {
        assert forall|g: Seq<u32>| spec_dedup(s).contains(g) <==> s.contains(g) by {
            assert(!s.contains(g));
        }
    } else {
        let d0 = spec_dedup(s.drop_last());
        lemma_dedup_properties(s.drop_last());
        assert forall|g: Seq<u32>| spec_dedup(s).contains(g) <==> s.contains(g) by {
            assert(s.contains(g) <==> (s.drop_last().contains(g) || g == s.last())) by {
                if s.contains(g) {
                    let i = choose|i: int| 0 <= i < s.len() && s[i] == g;
                    if i < s.len() - 1 {
                        assert(s.drop_last()[i] == g);
                    }
                }
                if s.drop_last().contains(g) {
                    let i = choose|i: int| 0 <= i < s.drop_last().len() && s.drop_last()[i] == g;
                    assert(s[i] == g);
                }
                if g == s.last() {
                    assert(s[s.len() - 1] == g);
                }
            }
            if !s.drop_last().contains(s.last()) {
                assert(spec_dedup(s).contains(g) <==> (d0.contains(g) || g == s.last())) by {
                    let sel = spec_dedup(s);
                    if sel.contains(g) {
                        let i = choose|i: int| 0 <= i < sel.len() && sel[i] == g;
                        if i < sel.len() - 1 {
                            assert(d0[i] == g);
                        }
                    }
                    if d0.contains(g) {
                        let i = choose|i: int| 0 <= i < d0.len() && d0[i] == g;
                        assert(sel[i] == g);
                    }
                    if g == s.last() {
                        assert(sel[sel.len() - 1] == g);
                    }
                }
            }
        }
    }
}

/// The distinct length-`n` n-grams of a unit, merged across its words.
pub open spec fn spec_ngrams(words: Seq<Seq<u32>>, n: int) -> Seq<Seq<u32>> {
    spec_dedup(spec_flat(words, n))
}

/// Splits a text into its lower-cased words.
pub fn split_words(cps: &Vec<u32>) -> (r: Vec<Vec<u32>>)
    ensures
        r.deep_view() == spec_words(cps@),
{
    proof {
        broadcast use lemma_word_deep_view;
    }
    let mut words: Vec<Vec<u32>> = Vec::new();
    let mut cur: Vec<u32> = Vec::new();
    let mut i: usize = 0;
    while i < cps.len()
        invariant
            i <= cps@.len(),
            (words.deep_view(), cur@) == spec_words_state(cps@.take(i as int)),
        decreases cps@.len() - i,
    {
        let c = cps[i];
        let ghost prefix = cps@.take(i as int);
        let ghost old_words = words.deep_view();
        let ghost old_cur = cur@;
        if is_letter(c) {
            cur.push(lower(c));
        } else if cur.len() > 0 {
            let mut finished: Vec<u32> = Vec::new();
            std::mem::swap(&mut finished, &mut cur);
            words.push(finished);
        }
        proof {
            broadcast use lemma_word_deep_view;

            let next = cps@.take(i + 1);
            assert(next.drop_last() =~= prefix);
            assert(next.last() == cps@[i as int]);
            if spec_is_letter(cps@[i as int]) {
                assert(words.deep_view() =~= old_words);
            } else if old_cur.len() > 0 {
                assert(words.deep_view() =~= old_words.push(old_cur));
                assert(cur@ =~= Seq::<u32>::empty());
            } else {
                assert(words.deep_view() =~= old_words);
            }
        }
        i += 1;
    }
    proof {
        assert(cps@.take(cps@.len() as int) =~= cps@);
    }
    let ghost st = spec_words_state(cps@);
    if cur.len() > 0 {
        let ghost old_words = words.deep_view();
        words.push(cur);
        proof {
            broadcast use lemma_word_deep_view;

            assert(words.deep_view() =~= old_words.push(st.1));
        }
    }
    words
}

/// Length of the shortest word.
pub fn min_word_len(words: &Vec<Vec<u32>>) -> (r: usize)
    requires
        words@.len() > 0,
    ensures
        r == spec_min_len(words.deep_view()),
{
    proof {
        broadcast use lemma_word_deep_view;
    }
    let mut r: usize = words[0].len();
    let mut i: usize = 1;
    proof {
        assert(words.deep_view().take(1)[0] == words.deep_view()[0]);
    }
    while i < words.len()
        invariant
            1 <= i <= words@.len(),
            r == spec_min_len(words.deep_view().take(i as int)),
        decreases words@.len() - i,
    {
        let len = words[i].len();
        proof {
            broadcast use lemma_word_deep_view;

            let next = words.deep_view().take(i + 1);
            assert(next.drop_last() =~= words.deep_view().take(i as int));
            assert(next.last() == words.deep_view()[i as int]);
            assert(next.len() > 1);
        }
        if len < r {
            r = len;
        }
        i += 1;
    }
    proof {
        assert(words.deep_view().take(words@.len() as int) =~= words.deep_view());
    }
    r
}

/// Copies a substring of a word.
pub(crate) fn copy_range(w: &Vec<u32>, from: usize, to: usize) -> (r: Vec<u32>)
    requires
        from <= to <= w@.len(),
    ensures
        r@ == w@.subrange(from as int, to as int),
{
    let mut r: Vec<u32> = Vec::new();
    let mut i: usize = from;
    while i < to
        invariant
            from <= i <= to <= w@.len(),
            r@ == w@.subrange(from as int, i as int),
        decreases to - i,
    {
        r.push(w[i]);
        proof {
            assert(r@ =~= w@.subrange(from as int, i + 1));
        }
        i += 1;
    }
    r
}

/// Whether two n-grams hold the same code points.
pub(crate) fn grams_eq(a: &Vec<u32>, b: &Vec<u32>) -> (r: bool)
    ensures
        r == (a@ == b@),
{
    if a.len() != b.len() {
        proof {
            assert(a@.len() != b@.len());
        }
        return false;
    }
    let mut i: usize = 0;
    while i < a.len()
        invariant
            i <= a@.len(),
            a@.len() == b@.len(),
            forall|k: int| 0 <= k < i ==> a@[k] == b@[k],
        decreases a@.len() - i,
    {
        if a[i] != b[i] {
            return false;
        }
        i += 1;
    }
    proof {
        assert(a@ =~= b@);
    }
    true
}

/// Whether an n-gram already occurs in a list.
fn contains_gram(list: &Vec<Vec<u32>>, g: &Vec<u32>) -> (r: bool)
    ensures
        r == list.deep_view().contains(g@),
{
    proof {
        broadcast use lemma_word_deep_view;
    }
    let mut i: usize = 0;
    while i < list.len()
        invariant
            i <= list@.len(),
            forall|k: int| 0 <= k < i ==> list.deep_view()[k] != g@,
        decreases list@.len() - i,
    {
        if grams_eq(&list[i], g) {
            proof {
                broadcast use lemma_word_deep_view;

                assert(list.deep_view()[i as int] == g@);
            }
            return true;
        }
        proof {
            broadcast use lemma_word_deep_view;

            assert(list.deep_view()[i as int] == list@[i as int]@);
        }
        i += 1;
    }
    proof {
        if list.deep_view().contains(g@) {
            let k = choose|k: int| 0 <= k < list.deep_view().len() && list.deep_view()[k] == g@;
        }
    }
    false
}

/// The distinct n-grams of order `n` for a unit of words.
pub fn extract_ngrams(words: &Vec<Vec<u32>>, n: usize) -> (r: Vec<Vec<u32>>)
    requires
        1 <= n,
    ensures
        r.deep_view() == spec_ngrams(words.deep_view(), n as int),
{
    proof {
        broadcast use lemma_word_deep_view;
    }
    let mut r: Vec<Vec<u32>> = Vec::new();
    let ghost dv = words.deep_view();
    let mut wi: usize = 0;
    let ghost mut flat = Seq::<Seq<u32>>::empty();
    proof {
        assert(flat =~= spec_flat(dv.take(0), n as int));
    }
    while wi < words.len()
        invariant
            1 <= n,
            wi <= words@.len(),
            dv == words.deep_view(),
            flat == spec_flat(dv.take(wi as int), n as int),
            r.deep_view() == spec_dedup(flat),
        decreases words@.len() - wi,
    {
        let wlen = words[wi].len();
        let ghost wv = dv[wi as int];
        proof {
            broadcast use lemma_word_deep_view;

            assert(wv == words@[wi as int]@);
        }
        if n <= wlen {
            let last_start = wlen - n;
            let mut p: usize = 0;
            while p <= last_start
                invariant
                    1 <= n,
                    wi < words@.len(),
                    dv == words.deep_view(),
                    wv == words@[wi as int]@,
                    n <= wlen,
                    wlen == wv.len(),
                    last_start == wlen - n,
                    p <= last_start + 1,
                    flat == spec_flat(dv.take(wi as int), n as int) + spec_subs(wv, n as int).take(
                        p as int,
                    ),
                    r.deep_view() == spec_dedup(flat),
                decreases last_start + 1 - p,
            {
                let g = copy_range(&words[wi], p, p + n);
                let ghost gv = g@;
                proof {
                    broadcast use lemma_word_deep_view;

                    assert(gv == spec_subs(wv, n as int)[p as int]);
                }
                let dup = contains_gram(&r, &g);
                let ghost next_flat = flat.push(gv);
                proof {
                    lemma_dedup_properties(flat);
                    assert(next_flat.drop_last() =~= flat);
                    assert(next_flat.last() == gv);
                    assert(spec_dedup(next_flat) == if flat.contains(gv) {
                        spec_dedup(flat)
                    } else {
                        spec_dedup(flat).push(gv)
                    });
                    assert(next_flat =~= spec_flat(dv.take(wi as int), n as int) + spec_subs(
                        wv,
                        n as int,
                    ).take(p + 1)) by {
                        assert(spec_subs(wv, n as int).take(p + 1) =~= spec_subs(
                            wv,
                            n as int,
                        ).take(p as int).push(spec_subs(wv, n as int)[p as int]));
                    }
                }
                let ghost old_rdv = r.deep_view();
                if !dup {
                    r.push(g);
                    proof {
                        broadcast use lemma_word_deep_view;

                        assert(r.deep_view() =~= old_rdv.push(gv));
                    }
                }
                proof {
                    flat = next_flat;
                }
                p += 1;
            }
            proof {
                assert(spec_subs(wv, n as int).take(last_start + 1) =~= spec_subs(wv, n as int));
            }
        } else {
            proof {
                assert(spec_subs(wv, n as int) =~= Seq::<Seq<u32>>::empty());
                assert(flat =~= spec_flat(dv.take(wi as int), n as int) + spec_subs(wv, n as int));
            }
        }
        proof {
            let next = dv.take(wi + 1);
            assert(next.drop_last() =~= dv.take(wi as int));
            assert(next.last() == dv[wi as int]);
            assert(spec_flat(next, n as int) == spec_flat(dv.take(wi as int), n as int)
                + spec_subs(dv[wi as int], n as int));
        }
        wi += 1;
    }
    proof {
        assert(dv.take(words@.len() as int) =~= dv);
    }
    r
}

} // verus!
