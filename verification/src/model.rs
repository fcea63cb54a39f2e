//! Per-language n-gram frequency models and the probability combiner.
//!
//! A model maps n-grams (orders one to five) to scaled logarithms of
//! their trained relative frequencies: every stored value is a negative
//! fixed-point number, zero standing for probability one.  A lookup of an
//! n-gram the model never saw falls back to a smoothing floor that is
//! substantially smaller than any stored value, so sparse coverage
//! lowers but never eliminates a candidate.  A unit is scored by summing
//! the looked-up log-frequencies of its distinct n-grams, order group by
//! order group: summed logarithms stand for multiplied probabilities
//! without any risk of underflow.

use vstd::prelude::*;
use crate::ngram::{
    spec_ngrams, spec_max_order, spec_min_len, spec_flat, spec_subs, spec_dedup,
    lemma_dedup_properties, extract_ngrams, grams_eq, copy_range, min_word_len,
    lemma_word_deep_view,
};

verus! {

/// Exclusive lower bound for stored log-frequencies.
pub const VALUE_FLOOR: i64 = -1048576;

/// Scaled log-probability charged for an n-gram absent from a model.
pub const SMOOTHING_FLOOR: i64 = -4194304;

/// Lower bound for the score contribution of one order group: at most
/// one smoothing floor for every position the machine can address.
pub const ORDER_MIN: i128 = -77371252455336267181195264;

/// Lower bound for any unit score: five order groups.
pub const SCORE_MIN: i128 = -386856262276681335905976320;

/// A well-formed model: every key has order one to five, every value
/// lies strictly between the value floor and zero, and every key is
/// unique within the model.
pub open spec fn wf_entries(m: Seq<(Seq<u32>, i64)>) -> bool {
    &&& forall|i: int|
        0 <= i < m.len() ==> (VALUE_FLOOR < (#[trigger] m[i]).1 < 0 && 1 <= m[i].0.len() <= 5)
    &&& forall|i: int, j: int| 0 <= i < j < m.len() ==> m[i].0 != m[j].0
}

/// Whether one raw entry may enter a model: an n-gram of order one to
/// five with a log-frequency strictly between the value floor and zero.
pub open spec fn spec_entry_ok(key: Seq<u32>, value: i64) -> bool {
    VALUE_FLOOR < value < 0 && 1 <= key.len() <= 5
}

/// Whether a model already holds a key.
pub open spec fn spec_has_key(m: Seq<(Seq<u32>, i64)>, key: Seq<u32>) -> bool {
    exists|i: int| 0 <= i < m.len() && (#[trigger] m[i]).0 == key
}

/// The entries a model keeps from a raw table: the admissible ones, in
/// order, the first entry of each key winning.
pub open spec fn spec_kept_entries(raw: Seq<(Seq<u32>, i64)>) -> Seq<(Seq<u32>, i64)>
    decreases raw.len(),
{
    if raw.len() == 0 {
        Seq::empty()
    } else {
        let rest = spec_kept_entries(raw.drop_last());
        let e = raw.last();
        if spec_entry_ok(e.0, e.1) && !spec_has_key(rest, e.0) {
            rest.push(e)
        } else {
            rest
        }
    }
}

/// What a model keeps is always well-formed.
pub proof fn lemma_kept_entries_wf(raw: Seq<(Seq<u32>, i64)>)
    ensures
        wf_entries(spec_kept_entries(raw)),
    decreases raw.len(),
{
    if raw.len() > 0 {
        lemma_kept_entries_wf(raw.drop_last());
        let rest = spec_kept_entries(raw.drop_last());
        let e = raw.last();
        if spec_entry_ok(e.0, e.1) && !spec_has_key(rest, e.0) {
            let m = spec_kept_entries(raw);
            assert forall|i: int, j: int| 0 <= i < j < m.len() implies m[i].0 != m[j].0 by {
                if j < m.len() - 1 {
                    assert(m[i] == rest[i] && m[j] == rest[j]);
                } else {
                    assert(m[i] == rest[i] && m[j] == e);
                    if rest[i].0 == e.0 {
                        assert(spec_has_key(rest, e.0));
                    }
                }
            }
        }
    }
}

/// Stored log-frequency of an n-gram, or the smoothing floor when the
/// model does not hold it.  The first matching key decides; in a
/// well-formed model keys are unique, so at most one can match.
pub open spec fn spec_lookup(m: Seq<(Seq<u32>, i64)>, g: Seq<u32>) -> i64
    decreases m.len(),
{
    if m.len() == 0 {
        SMOOTHING_FLOOR
    } else if m[0].0 == g {
        m[0].1
    } else {
        spec_lookup(m.drop_first(), g)
    }
}

/// Sum of the looked-up log-frequencies of a list of n-grams.
pub open spec fn spec_sum(m: Seq<(Seq<u32>, i64)>, grams: Seq<Seq<u32>>) -> int
    decreases grams.len(),
{
    if grams.len() == 0 {
        0
    } else {
        spec_sum(m, grams.drop_last()) + spec_lookup(m, grams.last())
    }
}

/// Aggregate log-probability of one order group of a unit.
pub open spec fn spec_order_score(m: Seq<(Seq<u32>, i64)>, words: Seq<Seq<u32>>, n: int) -> int {
    spec_sum(m, spec_ngrams(words, n))
}

/// Sum of the order-group scores for orders one to `n`.
pub open spec fn spec_score_orders(m: Seq<(Seq<u32>, i64)>, words: Seq<Seq<u32>>, n: int) -> int
    decreases n,
{
    if n <= 0 {
        0
    } else {
        spec_score_orders(m, words, n - 1) + spec_order_score(m, words, n)
    }
}

/// Aggregate log-probability of a whole unit against one model: all
/// order groups up to the unit's highest order, combined.
pub open spec fn spec_score(m: Seq<(Seq<u32>, i64)>, words: Seq<Seq<u32>>) -> int {
    spec_score_orders(m, words, spec_max_order(words))
}

/// Every lookup of a well-formed model lies between the smoothing floor
/// and zero.
pub proof fn lemma_lookup_bounds(m: Seq<(Seq<u32>, i64)>, g: Seq<u32>)
    requires
        wf_entries(m),
    ensures
        SMOOTHING_FLOOR <= spec_lookup(m, g) < 0,
    decreases m.len(),
{
    if m.len() > 0 && m[0].0 != g {
        assert(wf_entries(m.drop_first())) by {
            assert(forall|i: int|
                0 <= i < m.drop_first().len() ==> #[trigger] m.drop_first()[i] == m[i + 1]);
        }
        lemma_lookup_bounds(m.drop_first(), g);
    }
}

/// A sum over a well-formed model is nonpositive, no smaller than one
/// smoothing floor per n-gram, and strictly negative for a nonempty
/// list.
pub proof fn lemma_sum_bounds(m: Seq<(Seq<u32>, i64)>, grams: Seq<Seq<u32>>)
    requires
        wf_entries(m),
    ensures
        SMOOTHING_FLOOR * grams.len() <= spec_sum(m, grams) <= 0,
        grams.len() > 0 ==> spec_sum(m, grams) < 0,
    decreases grams.len(),
{
    if grams.len() > 0 {
        lemma_sum_bounds(m, grams.drop_last());
        lemma_lookup_bounds(m, grams.last());
        assert(SMOOTHING_FLOOR * grams.len() == SMOOTHING_FLOOR * (grams.len() - 1)
            + SMOOTHING_FLOOR) by (nonlinear_arith);
    }
}

/// The shortest word of a unit of nonempty words is nonempty.
pub proof fn lemma_min_len_pos(words: Seq<Seq<u32>>)
    requires
        words.len() > 0,
        forall|k: int| 0 <= k < words.len() ==> words[k].len() > 0,
    ensures
        spec_min_len(words) >= 1,
    decreases words.len(),
{
    if words.len() > 1 {
        let d = words.drop_last();
        assert(forall|k: int| 0 <= k < d.len() ==> d[k] == words[k]);
        lemma_min_len_pos(d);
    }
}

/// Order-group scores are nonpositive, and strictly negative for the
/// unigram group of a unit of nonempty words.
pub proof fn lemma_score_orders_bounds(m: Seq<(Seq<u32>, i64)>, words: Seq<Seq<u32>>, n: int)
    requires
        wf_entries(m),
    ensures
        spec_score_orders(m, words, n) <= 0,
        n >= 1 && spec_ngrams(words, 1).len() > 0 ==> spec_score_orders(m, words, n) < 0,
    decreases n,
{
    if n >= 1 {
        lemma_score_orders_bounds(m, words, n - 1);
        lemma_sum_bounds(m, spec_ngrams(words, n));
        if n == 1 && spec_ngrams(words, 1).len() > 0 {
            assert(spec_order_score(m, words, 1) < 0);
        }
    }
}

/// The aggregate score of a nonempty unit of nonempty words against a
/// well-formed model is strictly negative: there is always at least one
/// unigram, and every log-frequency is negative.
pub proof fn lemma_score_negative(m: Seq<(Seq<u32>, i64)>, words: Seq<Seq<u32>>)
    requires
        wf_entries(m),
        words.len() > 0,
        forall|k: int| 0 <= k < words.len() ==> words[k].len() > 0,
    ensures
        spec_score(m, words) < 0,
{
    lemma_min_len_pos(words);
    assert(spec_max_order(words) >= 1);
    let flat = spec_flat(words, 1);
    assert(flat.len() > 0) by {
        assert(spec_subs(words.last(), 1).len() == words.last().len());
    }
    assert(spec_ngrams(words, 1).len() > 0) by {
        lemma_dedup_properties(flat);
        assert(flat.contains(flat[0]));
        assert(spec_dedup(flat).contains(flat[0]));
    }
    lemma_score_orders_bounds(m, words, spec_max_order(words));
}

/// A language frequency model: an immutable association of n-grams with
/// scaled log-frequencies, fixed when the owning detector is built.
pub struct LanguageModel {
    entries: Vec<(Vec<u32>, i64)>,
}

impl View for LanguageModel {
    type V = Seq<(Seq<u32>, i64)>;

    closed spec fn view(&self) -> Seq<(Seq<u32>, i64)> {
        self.entries.deep_view()
    }
}

/// Whether a raw entry list already holds a key.
fn entries_have_key(entries: &Vec<(Vec<u32>, i64)>, key: &Vec<u32>) -> (r: bool)
    ensures
        r == spec_has_key(entries.deep_view(), key@),
{
    proof {
        broadcast use lemma_word_deep_view;
    }
    let mut i: usize = 0;
    while i < entries.len()
        invariant
            i <= entries@.len(),
            forall|k: int| 0 <= k < i ==> (#[trigger] entries.deep_view()[k]).0 != key@,
        decreases entries@.len() - i,
    {
        proof {
            broadcast use lemma_word_deep_view;

            assert(entries.deep_view()[i as int] == (entries@[i as int].0@, entries@[i as int].1));
        }
        if grams_eq(&entries[i].0, key) {
            return true;
        }
        i += 1;
    }
    proof {
        if spec_has_key(entries.deep_view(), key@) {
            let k = choose|k: int|
                0 <= k < entries.deep_view().len() && entries.deep_view()[k].0 == key@;
        }
    }
    false
}

impl LanguageModel {
    /// Builds a model from a raw table, keeping exactly the entries
    /// `spec_kept_entries` keeps: the admissible ones in table order,
    /// the first entry of each key winning.  The result is therefore
    /// the packaged table itself whenever the table is well-formed.
    pub fn from_entries(raw: Vec<(Vec<u32>, i64)>) -> (m: LanguageModel)
        ensures
            m@ == spec_kept_entries(raw.deep_view()),
            wf_entries(m@),
    {
        proof {
            broadcast use lemma_word_deep_view;
        }
        let ghost rv = raw.deep_view();
        let mut entries: Vec<(Vec<u32>, i64)> = Vec::new();
        let mut i: usize = 0;
        proof {
            assert(rv.take(0) =~= Seq::<(Seq<u32>, i64)>::empty());
        }
        while i < raw.len()
            invariant
                i <= raw@.len(),
                rv == raw.deep_view(),
                rv.len() == raw@.len(),
                entries.deep_view() == spec_kept_entries(rv.take(i as int)),
            decreases raw@.len() - i,
        {
            proof {
                broadcast use lemma_word_deep_view;

                assert(rv[i as int] == (raw@[i as int].0@, raw@[i as int].1));
            }
            let keep = {
                let e = &raw[i];
                VALUE_FLOOR < e.1 && e.1 < 0 && 1 <= e.0.len() && e.0.len() <= 5
            };
            let fresh = if keep {
                !entries_have_key(&entries, &raw[i].0)
            } else {
                false
            };
            proof {
                let next = rv.take(i + 1);
                assert(next.drop_last() =~= rv.take(i as int));
                assert(next.last() == rv[i as int]);
            }
            if fresh {
                let ghost before = entries.deep_view();
                let klen = raw[i].0.len();
                let key = copy_range(&raw[i].0, 0, klen);
                let value = raw[i].1;
                proof {
                    assert(key@ =~= raw@[i as int].0@);
                }
                entries.push((key, value));
                proof {
                    broadcast use lemma_word_deep_view;

                    assert(entries.deep_view() =~~= before.push(rv[i as int]));
                }
            }
            i += 1;
        }
        proof {
            assert(rv.take(rv.len() as int) =~= rv);
            lemma_kept_entries_wf(rv);
        }
        LanguageModel { entries }
    }


    /// Looks an n-gram up, falling back to the smoothing floor for a key
    /// the model does not hold.
    pub fn lookup(&self, g: &Vec<u32>) -> (r: i64)
        ensures
            r == spec_lookup(self@, g@),
    {
        let ghost m = self@;
        proof {
            broadcast use lemma_word_deep_view;

            assert(m.skip(0) =~= m);
        }
        let mut i: usize = 0;
        while i < self.entries.len()
            invariant
                i <= m.len(),
                m == self@,
                m.len() == self.entries@.len(),
                spec_lookup(m, g@) == spec_lookup(m.skip(i as int), g@),
            decreases m.len() - i,
        {
            proof {
                broadcast use lemma_word_deep_view;

                assert(m[i as int] == (self.entries@[i as int].0@, self.entries@[i as int].1));
            }
            if grams_eq(&self.entries[i].0, g) {
                proof {
                    assert(m.skip(i as int)[0] == m[i as int]);
                }
                return self.entries[i].1;
            }
            proof {
                let rest = m.skip(i as int);
                assert(rest[0] == m[i as int]);
                assert(rest.drop_first() =~= m.skip(i + 1));
            }
            i += 1;
        }
        proof {
            assert(m.skip(m.len() as int).len() == 0);
        }
        SMOOTHING_FLOOR
    }

    /// Sum of the looked-up log-frequencies of a list of n-grams.
    fn sum_grams(&self, grams: &Vec<Vec<u32>>) -> (r: i128)
        requires
            wf_entries(self@),
        ensures
            r == spec_sum(self@, grams.deep_view()),
            SMOOTHING_FLOOR * grams.deep_view().len() <= r <= 0,
    {
        proof {
            broadcast use lemma_word_deep_view;
        }
        let ghost gv = grams.deep_view();
        let mut r: i128 = 0;
        let mut i: usize = 0;
        while i < grams.len()
            invariant
                i <= gv.len(),
                gv == grams.deep_view(),
                wf_entries(self@),
                r == spec_sum(self@, gv.take(i as int)),
                SMOOTHING_FLOOR * i <= r <= 0,
            decreases gv.len() - i,
        {
            let v = self.lookup(&grams[i]);
            proof {
                broadcast use lemma_word_deep_view;

                let next = gv.take(i + 1);
                assert(next.drop_last() =~= gv.take(i as int));
                assert(next.last() == gv[i as int]);
                assert(gv[i as int] == grams@[i as int]@);
                lemma_lookup_bounds(self@, gv[i as int]);
                assert(SMOOTHING_FLOOR * (i + 1) == SMOOTHING_FLOOR * i + SMOOTHING_FLOOR)
                    by (nonlinear_arith);
            }
            r = r + v as i128;
            i += 1;
        }
        proof {
            assert(gv.take(gv.len() as int) =~= gv);
        }
        r
    }

    /// Scores a unit of words: extracts the distinct n-grams of every
    /// order the unit supports, looks each up, and sums the logarithms.
    pub fn score_unit(&self, words: &Vec<Vec<u32>>) -> (r: i128)
        requires
            wf_entries(self@),
            words.deep_view().len() > 0,
            forall|k: int| 0 <= k < words.deep_view().len() ==> words.deep_view()[k].len() > 0,
        ensures
            r == spec_score(self@, words.deep_view()),
            SCORE_MIN <= r <= 0,
    {
        proof {
            broadcast use lemma_word_deep_view;
        }
        let ghost wv = words.deep_view();
        let min_len = min_word_len(words);
        let max_order: usize = if min_len < 5 {
            min_len
        } else {
            5
        };
        proof {
            assert(max_order == spec_max_order(wv));
        }
        let mut r: i128 = 0;
        let mut n: usize = 0;
        while n < max_order
            invariant
                n <= max_order,
                max_order <= 5,
                wv == words.deep_view(),
                wf_entries(self@),
                max_order == spec_max_order(wv),
                r == spec_score_orders(self@, wv, n as int),
                (n as int) * ORDER_MIN <= r <= 0,
            decreases max_order - n,
        {
            let grams = extract_ngrams(words, n + 1);
            let glen_rt = grams.len();
            let s = self.sum_grams(&grams);
            proof {
                let glen = grams.deep_view().len();
                assert(glen == glen_rt as int);
                assert(ORDER_MIN <= SMOOTHING_FLOOR * glen) by (nonlinear_arith)
                    requires
                        0 <= glen <= 18446744073709551615,
                ;
                assert((n as int) * ORDER_MIN >= 5 * ORDER_MIN) by (nonlinear_arith)
                    requires
                        0 <= (n as int) <= 5,
                ;
                assert(((n + 1) as int) * ORDER_MIN == (n as int) * ORDER_MIN + ORDER_MIN)
                    by (nonlinear_arith);
            }
            r = r + s;
            n += 1;
        }
        proof {
            assert((n as int) * ORDER_MIN >= 5 * ORDER_MIN) by (nonlinear_arith)
                requires
                    0 <= (n as int) <= 5,
            ;
        }
        r
    }
}

} // verus!
