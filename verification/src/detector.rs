//! The language detector: script filtering, candidate scoring, ranking,
//! the confidence distribution and the margin-gated decision.
//!
//! A detection call is a pure function of the detector's immutable
//! configuration and the input text.  Empty or letter-free input yields
//! no answer.  Otherwise the configured languages are narrowed to those
//! writable in a script present in the text (with a fallback to the full
//! set when nothing matches); a single survivor wins outright; several
//! survivors are scored, ranked deterministically (ties fall to the
//! earlier catalog position), and the best candidate is reported only
//! when its relative distance to the runner-up reaches the configured
//! minimum.

use vstd::prelude::*;
use vstd::arithmetic::div_mod::{
    lemma_div_pos_is_pos, lemma_div_is_ordered, lemma_div_is_ordered_by_denominator,
    lemma_div_by_multiple, lemma_fundamental_div_mod, lemma_mod_division_less_than_divisor,
};
use vstd::seq_lib::group_to_multiset_ensures;
use vstd::multiset::Multiset;
use crate::language::{Language, strictly_sorted, spec_lang_index, spec_uses_script};
use crate::script::{spec_script_of, spec_code_points, script_of, code_points};
use crate::ngram::{spec_words, split_words, lemma_words_nonempty, lemma_word_deep_view};
use crate::model::{LanguageModel, wf_entries, spec_score, SCORE_MIN};
use crate::models::{builtin_entries, spec_builtin_model, spec_builtin_models};

verus! {

/// Scale of reported confidence values: a confidence is a number of
/// parts per million, the full distribution summing to one million.
pub const CONFIDENCE_SCALE: u32 = 1000000;

/// Fixed-point unit of the confidence-normalisation weights: the
/// best-ranked candidate weighs one unit, and every other weight
/// shrinks monotonically with the candidate's score gap to the best,
/// so normalisation preserves the ranking and never overflows.
const WEIGHT_UNIT: u128 = 4294967296;

/// Whether one code point's script makes a language eligible.
pub open spec fn spec_char_matches(c: u32, l: Language) -> bool {
    match spec_script_of(c) {
        Some(s) => spec_uses_script(l, s),
        None => false,
    }
}

/// Whether a text holds at least one code point of a script the
/// language can be written in.
pub open spec fn spec_lang_matches(cps: Seq<u32>, l: Language) -> bool {
    exists|i: int| 0 <= i < cps.len() && #[trigger] spec_char_matches(cps[i], l)
}

/// Positions of the configured languages whose script matches the text.
pub open spec fn spec_matching_idxs(langs: Seq<Language>, cps: Seq<u32>) -> Seq<int>
    decreases langs.len(),
{
    if langs.len() == 0 {
        Seq::empty()
    } else {
        let rest = spec_matching_idxs(langs.drop_last(), cps);
        if spec_lang_matches(cps, langs.last()) {
            rest.push(langs.len() - 1)
        } else {
            rest
        }
    }
}

/// The positions `0 .. n`.
pub open spec fn spec_all_idxs(n: int) -> Seq<int> {
    Seq::new(n as nat, |i: int| i)
}

/// The candidate set of a detection call: the script-matching positions,
/// or every configured position when script filtering eliminates all of
/// them.
pub open spec fn spec_candidates(langs: Seq<Language>, cps: Seq<u32>) -> Seq<int> {
    let m = spec_matching_idxs(langs, cps);
    if m.len() == 0 {
        spec_all_idxs(langs.len() as int)
    } else {
        m
    }
}

/// Script-matching positions are within bounds and strictly ascending.
pub proof fn lemma_matching_idxs_bounds(langs: Seq<Language>, cps: Seq<u32>)
    ensures
        forall|k: int|
            0 <= k < spec_matching_idxs(langs, cps).len() ==> 0 <= #[trigger] spec_matching_idxs(
                langs,
                cps,
            )[k] < langs.len(),
        forall|k1: int, k2: int|
            0 <= k1 < k2 < spec_matching_idxs(langs, cps).len() ==> spec_matching_idxs(
                langs,
                cps,
            )[k1] < spec_matching_idxs(langs, cps)[k2],
    decreases langs.len(),
{
    if langs.len() > 0 {
        lemma_matching_idxs_bounds(langs.drop_last(), cps);
        let rest = spec_matching_idxs(langs.drop_last(), cps);
        let m = spec_matching_idxs(langs, cps);
        if spec_lang_matches(cps, langs.last()) {
            assert forall|k: int| 0 <= k < m.len() implies 0 <= #[trigger] m[k] < langs.len() by {
                if k < rest.len() {
                    assert(m[k] == rest[k]);
                } else {
                    assert(m[k] == langs.len() - 1);
                }
            }
            assert forall|k1: int, k2: int| 0 <= k1 < k2 < m.len() implies m[k1] < m[k2] by {
                if k2 < rest.len() {
                    assert(m[k1] == rest[k1] && m[k2] == rest[k2]);
                } else {
                    assert(m[k2] == langs.len() - 1);
                    assert(m[k1] == rest[k1]);
                    assert(rest[k1] < langs.drop_last().len());
                }
            }
        }
    }
}

/// Candidate positions are within bounds, strictly ascending, and
/// nonempty for a nonempty configuration.
pub proof fn lemma_candidates_bounds(langs: Seq<Language>, cps: Seq<u32>)
    ensures
        forall|k: int|
            0 <= k < spec_candidates(langs, cps).len() ==> 0 <= #[trigger] spec_candidates(
                langs,
                cps,
            )[k] < langs.len(),
        forall|k1: int, k2: int|
            0 <= k1 < k2 < spec_candidates(langs, cps).len() ==> spec_candidates(langs, cps)[k1]
                < spec_candidates(langs, cps)[k2],
        langs.len() > 0 ==> spec_candidates(langs, cps).len() > 0,
        spec_candidates(langs, cps).len() <= langs.len(),
{
    lemma_matching_idxs_bounds(langs, cps);
    let m = spec_matching_idxs(langs, cps);
    if m.len() > 0 {
        // strictly ascending positions below `langs.len()` cannot number
        // more than `langs.len()`
        lemma_ascending_len(m, langs.len() as int);
    }
}

/// A strictly ascending sequence of positions below `n` has at most `n`
/// members.
proof fn lemma_ascending_len(s: Seq<int>, n: int)
    requires
        n >= 0,
        forall|k: int| 0 <= k < s.len() ==> 0 <= #[trigger] s[k] < n,
        forall|k1: int, k2: int| 0 <= k1 < k2 < s.len() ==> s[k1] < s[k2],
    ensures
        s.len() <= n,
    decreases s.len(),
{
    if s.len() > 0 {
        let d = s.drop_last();
        assert(forall|k: int| 0 <= k < d.len() ==> #[trigger] d[k] == s[k]);
        assert forall|k: int| 0 <= k < d.len() implies 0 <= #[trigger] d[k] < s.last() by {
            assert(s[k] < s[s.len() - 1]);
        }
        lemma_ascending_len(d, s.last());
        assert(s.last() < n);
        assert(s.len() == d.len() + 1 <= s.last() + 1 <= n);
    }
}

/// One ranking step: fold the next candidate and its score into the
/// running triple of best position, best score and runner-up score.  A
/// tie never displaces the incumbent, so the earlier catalog position
/// wins.
pub open spec fn spec_rank_step(st: (int, int, Option<int>), idx: int, sc: int) -> (
    int,
    int,
    Option<int>,
) {
    if sc > st.1 {
        (idx, sc, Some(st.1))
    } else {
        match st.2 {
            None => (st.0, st.1, Some(sc)),
            Some(s2) => if sc > s2 {
                (st.0, st.1, Some(sc))
            } else {
                st
            },
        }
    }
}

/// Ranks the candidate positions of a unit: the best position, its
/// score, and the runner-up score if there is more than one candidate.
pub open spec fn spec_rank(
    models: Seq<Seq<(Seq<u32>, i64)>>,
    words: Seq<Seq<u32>>,
    cands: Seq<int>,
) -> (int, int, Option<int>)
    decreases cands.len(),
{
    if cands.len() <= 1 {
        (cands[0], spec_score(models[cands[0]], words), None::<int>)
    } else {
        spec_rank_step(
            spec_rank(models, words, cands.drop_last()),
            cands.last(),
            spec_score(models[cands.last()], words),
        )
    }
}

/// The ranked best position is one of the candidates.
pub proof fn lemma_rank_member(
    models: Seq<Seq<(Seq<u32>, i64)>>,
    words: Seq<Seq<u32>>,
    cands: Seq<int>,
)
    requires
        cands.len() >= 1,
    ensures
        cands.contains(spec_rank(models, words, cands).0),
        cands.len() >= 2 ==> spec_rank(models, words, cands).2 is Some,
        spec_rank(models, words, cands).1 == spec_score(
            models[spec_rank(models, words, cands).0],
            words,
        ),
    decreases cands.len(),
{
    if cands.len() == 1 {
        assert(cands[0] == spec_rank(models, words, cands).0);
    } else {
        let d = cands.drop_last();
        lemma_rank_member(models, words, d);
        let st = spec_rank(models, words, d);
        let r = spec_rank(models, words, cands);
        if r.0 == cands.last() {
            assert(cands[cands.len() - 1] == r.0);
        } else {
            assert(r.0 == st.0);
            let k = choose|k: int| 0 <= k < d.len() && d[k] == st.0;
            assert(cands[k] == st.0);
        }
    }
}

/// The ranked best candidate scores at least as well as every
/// candidate, and strictly better than every candidate at an earlier
/// catalog position: the first of the best-scoring candidates wins.
pub proof fn lemma_rank_is_max(
    models: Seq<Seq<(Seq<u32>, i64)>>,
    words: Seq<Seq<u32>>,
    cands: Seq<int>,
)
    requires
        cands.len() >= 1,
        forall|k1: int, k2: int| 0 <= k1 < k2 < cands.len() ==> cands[k1] < cands[k2],
    ensures
        forall|k: int|
            0 <= k < cands.len() ==> spec_score(models[#[trigger] cands[k]], words) <= spec_rank(
                models,
                words,
                cands,
            ).1,
        forall|k: int|
            0 <= k < cands.len() && #[trigger] cands[k] < spec_rank(models, words, cands).0
                ==> spec_score(models[cands[k]], words) < spec_rank(models, words, cands).1,
    decreases cands.len(),
{
    if cands.len() == 1 {
        assert(spec_rank(models, words, cands).0 == cands[0]);
    } else {
        let d = cands.drop_last();
        assert(forall|k: int| 0 <= k < d.len() ==> #[trigger] d[k] == cands[k]);
        lemma_rank_member(models, words, d);
        lemma_rank_is_max(models, words, d);
        let st = spec_rank(models, words, d);
        let r = spec_rank(models, words, cands);
        let last = cands.last();
        let sc = spec_score(models[last], words);
        assert(st.0 < last) by {
            let k = choose|k: int| 0 <= k < d.len() && d[k] == st.0;
            assert(cands[k] == st.0);
            assert(cands[k] < cands[cands.len() - 1]);
        }
        if sc > st.1 {
            assert(r.0 == last && r.1 == sc);
        } else {
            assert(r.0 == st.0 && r.1 == st.1);
        }
        assert forall|k: int|
            0 <= k < cands.len() implies spec_score(models[#[trigger] cands[k]], words)
            <= r.1 by {
            if k < cands.len() - 1 {
                assert(cands[k] == d[k]);
                assert(spec_score(models[d[k]], words) <= st.1);
            }
        }
        assert forall|k: int|
            0 <= k < cands.len() && #[trigger] cands[k] < r.0 implies spec_score(
            models[cands[k]],
            words,
        ) < r.1 by {
            if k < cands.len() - 1 {
                assert(cands[k] == d[k]);
                if sc > st.1 {
                    assert(spec_score(models[d[k]], words) <= st.1);
                } else {
                    assert(spec_score(models[d[k]], words) < st.1);
                }
            } else {
                assert(!(cands[k] < r.0));
            }
        }
    }
}

/// The margin rule: the gap between the two leading scores, relative to
/// the magnitude of the best score, reaches the configured minimum
/// relative distance (in hundredths).
pub open spec fn spec_margin_ok(best: int, second: int, mrd: int) -> bool {
    (best - second) * 100 >= mrd * (-best)
}

/// The full detection pipeline as a function of the configuration and
/// the text: reject letter-free input; filter candidates by script; let
/// a single survivor win outright; otherwise rank the scored survivors
/// and apply the margin rule.
pub open spec fn spec_detect(
    langs: Seq<Language>,
    models: Seq<Seq<(Seq<u32>, i64)>>,
    mrd: int,
    text: Seq<char>,
) -> Option<Language> {
    let cps = spec_code_points(text);
    let words = spec_words(cps);
    if words.len() == 0 {
        None
    } else {
        let cands = spec_candidates(langs, cps);
        if cands.len() == 1 {
            Some(langs[cands[0]])
        } else {
            let r = spec_rank(models, words, cands);
            match r.2 {
                None => Some(langs[r.0]),
                Some(s2) => if spec_margin_ok(r.1, s2, mrd) {
                    Some(langs[r.0])
                } else {
                    None
                },
            }
        }
    }
}

/// Sum of the confidences of a result list.
pub open spec fn spec_conf_sum(s: Seq<(Language, u32)>) -> int
    decreases s.len(),
{
    if s.len() == 0 {
        0
    } else {
        spec_conf_sum(s.drop_last()) + s.last().1
    }
}

/// Whether a result list holds an entry for a language.
pub open spec fn spec_has_entry_for(s: Seq<(Language, u32)>, l: Language) -> bool {
    exists|k: int| 0 <= k < s.len() && (#[trigger] s[k]).0 == l
}

/// Whether a language survives script filtering for a text.
pub open spec fn spec_lang_is_candidate(langs: Seq<Language>, cps: Seq<u32>, l: Language) -> bool {
    exists|j: int|
        0 <= j < spec_candidates(langs, cps).len() && 0 <= #[trigger] spec_candidates(
            langs,
            cps,
        )[j] < langs.len() && langs[spec_candidates(langs, cps)[j]] == l
}

/// Whether a row list holds a given row.
spec fn has_row(out: Seq<ScoredEntry>, row: ScoredEntry) -> bool {
    exists|k: int| 0 <= k < out.len() && #[trigger] out[k] == row
}

/// The position a language occupies in a configured set.
pub open spec fn spec_position_of(langs: Seq<Language>, l: Language) -> int {
    choose|d: int| 0 <= d < langs.len() && langs[d] == l
}

/// One candidate row while ranking: a configured position and its score,
/// `None` for a position script filtering eliminated.
#[derive(Clone, Copy)]
struct ScoredEntry {
    idx: usize,
    score: Option<i128>,
}

/// Ranking order over rows: higher score first, a scored row before a
/// score-less one, ties falling to the earlier catalog position.
spec fn spec_ge(a: ScoredEntry, b: ScoredEntry) -> bool {
    match (a.score, b.score) {
        (Some(x), Some(y)) => x > y || (x == y && a.idx <= b.idx),
        (Some(_), None) => true,
        (None, None) => a.idx <= b.idx,
        (None, Some(_)) => false,
    }
}

/// The ranking order is reflexive, total and transitive.
proof fn lemma_ge_props(a: ScoredEntry, b: ScoredEntry, c: ScoredEntry)
    ensures
        spec_ge(a, a),
        !spec_ge(a, b) ==> spec_ge(b, a),
        spec_ge(a, b) && spec_ge(b, c) ==> spec_ge(a, c),
{
}

fn ge_entry(a: &ScoredEntry, b: &ScoredEntry) -> (r: bool)
    ensures
        r == spec_ge(*a, *b),
{
    match (a.score, b.score) {
        (Some(x), Some(y)) => x > y || (x == y && a.idx <= b.idx),
        (Some(_), None) => true,
        (None, None) => a.idx <= b.idx,
        (None, Some(_)) => false,
    }
}

/// Sorts candidate rows by the ranking order, keeping the multiset of
/// rows.
#[verifier::rlimit(60)]
fn sort_entries(input: Vec<ScoredEntry>) -> (r: Vec<ScoredEntry>)
    ensures
        r@.to_multiset() == input@.to_multiset(),
        r@.len() == input@.len(),
        forall|k1: int, k2: int| 0 <= k1 < k2 < r@.len() ==> spec_ge(r@[k1], r@[k2]),
{
    proof {
        broadcast use group_to_multiset_ensures;
        broadcast use vstd::seq_lib::to_multiset_insert;

        assert(input@.take(0) =~= Seq::<ScoredEntry>::empty());
        assert(Seq::<ScoredEntry>::empty().to_multiset() =~= Multiset::<ScoredEntry>::empty());
    }
    let mut out: Vec<ScoredEntry> = Vec::new();
    let mut i: usize = 0;
    while i < input.len()
        invariant
            i <= input@.len(),
            out@.len() == i,
            out@.to_multiset() == input@.take(i as int).to_multiset(),
            forall|k1: int, k2: int| 0 <= k1 < k2 < out@.len() ==> spec_ge(out@[k1], out@[k2]),
        decreases input@.len() - i,
    {
        let x = input[i];
        let mut pos: usize = 0;
        while pos < out.len() && ge_entry(&out[pos], &x)
            invariant
                pos <= out@.len(),
                forall|k: int| 0 <= k < pos ==> spec_ge(#[trigger] out@[k], x),
            decreases out@.len() - pos,
        {
            pos += 1;
        }
        let ghost old_out = out@;
        out.insert(pos, x);
        proof {
            broadcast use group_to_multiset_ensures;
            broadcast use vstd::seq_lib::to_multiset_insert;

            old_out.insert_ensures(pos as int, x);
            assert(input@.take(i + 1) =~= input@.take(i as int).push(input@[i as int]));
            assert(out@.to_multiset() == input@.take(i + 1).to_multiset());
            assert forall|k1: int, k2: int|
                0 <= k1 < k2 < out@.len() implies spec_ge(out@[k1], out@[k2]) by {
                if pos < old_out.len() {
                    lemma_ge_props(x, old_out[pos as int], old_out[pos as int]);
                }
                if k2 < pos {
                    assert(out@[k1] == old_out[k1] && out@[k2] == old_out[k2]);
                } else if k1 < pos && k2 == pos {
                    assert(out@[k1] == old_out[k1] && out@[k2] == x);
                } else if k1 < pos && k2 > pos {
                    assert(out@[k1] == old_out[k1] && out@[k2] == old_out[k2 - 1]);
                } else if k1 == pos {
                    assert(out@[k1] == x && out@[k2] == old_out[k2 - 1]);
                    assert(!spec_ge(old_out[pos as int], x));
                    lemma_ge_props(old_out[pos as int], x, x);
                    if k2 - 1 > pos {
                        assert(spec_ge(old_out[pos as int], old_out[k2 - 1]));
                    } else {
                        let op = old_out[pos as int];
                        lemma_ge_props(op, op, op);
                    }
                    lemma_ge_props(x, old_out[pos as int], old_out[k2 - 1]);
                } else {
                    assert(out@[k1] == old_out[k1 - 1] && out@[k2] == old_out[k2 - 1]);
                }
            }
        }
        i += 1;
    }
    proof {
        assert(input@.take(input@.len() as int) =~= input@);
    }
    out
}

/// A sorted permutation of one row per configured position maps every
/// row back to its original: rows keep their position field, appear
/// once each, and cover every position.
proof fn lemma_entries_permutation(inp: Seq<ScoredEntry>, out: Seq<ScoredEntry>)
    requires
        out.to_multiset() == inp.to_multiset(),
        out.len() == inp.len(),
        forall|k: int| 0 <= k < inp.len() ==> (#[trigger] inp[k]).idx == k,
    ensures
        forall|k: int|
            0 <= k < out.len() ==> 0 <= (#[trigger] out[k]).idx < inp.len()
                && out[k] == inp[out[k].idx as int],
        forall|k1: int, k2: int| 0 <= k1 < k2 < out.len() ==> out[k1].idx != out[k2].idx,
        forall|d: int| 0 <= d < inp.len() ==> has_row(out, #[trigger] inp[d]),
{
    broadcast use group_to_multiset_ensures;

    assert(inp.no_duplicates()) by {
        assert forall|k1: int, k2: int|
            0 <= k1 < k2 < inp.len() implies inp[k1] != inp[k2] by {
            assert(inp[k1].idx == k1 && inp[k2].idx == k2);
        }
    }
    inp.lemma_multiset_has_no_duplicates();
    assert forall|k: int|
        0 <= k < out.len() implies 0 <= (#[trigger] out[k]).idx < inp.len()
        && out[k] == inp[out[k].idx as int] by {
        assert(out.contains(out[k]));
        assert(out.to_multiset().count(out[k]) > 0);
        assert(inp.to_multiset().count(out[k]) > 0);
        assert(inp.contains(out[k]));
        let j = choose|j: int| 0 <= j < inp.len() && inp[j] == out[k];
        assert(inp[j].idx == j);
    }
    assert forall|k1: int, k2: int|
        0 <= k1 < k2 < out.len() implies out[k1].idx != out[k2].idx by {
        if out[k1].idx == out[k2].idx {
            assert(out[k1] == inp[out[k1].idx as int] && out[k2] == inp[out[k2].idx as int]);
            assert(out[k1] == out[k2]);
            let v = out[k1];
            let removed = out.remove(k1);
            assert(removed.to_multiset() == out.to_multiset().remove(v));
            assert(removed[k2 - 1] == v);
            assert(removed.contains(v));
            assert(removed.to_multiset().count(v) > 0);
            assert(out.to_multiset().count(v) >= 2);
            assert(inp.to_multiset().count(v) <= 1);
        }
    }
    assert forall|d: int| 0 <= d < inp.len() implies has_row(out, #[trigger] inp[d]) by {
        assert(inp.contains(inp[d]));
        assert(inp.to_multiset().count(inp[d]) > 0);
        assert(out.to_multiset().count(inp[d]) > 0);
        assert(out.contains(inp[d]));
        let k = choose|k: int| 0 <= k < out.len() && out[k] == inp[d];
        assert(out[k] == inp[d]);
    }
}

/// Sum of a sequence of fixed-point values.
spec fn spec_usum(s: Seq<u128>) -> int
    decreases s.len(),
{
    if s.len() == 0 {
        0
    } else {
        spec_usum(s.drop_last()) + s.last()
    }
}

/// A sum of nonnegative values is nonnegative and bounds each member.
proof fn lemma_usum_props(s: Seq<u128>)
    ensures
        spec_usum(s) >= 0,
        forall|k: int| 0 <= k < s.len() ==> #[trigger] s[k] <= spec_usum(s),
    decreases s.len(),
{
    if s.len() > 0 {
        let d = s.drop_last();
        assert(forall|k: int| 0 <= k < d.len() ==> #[trigger] d[k] == s[k]);
        lemma_usum_props(d);
        assert forall|k: int| 0 <= k < s.len() implies #[trigger] s[k] <= spec_usum(s) by {
            if k < s.len() - 1 {
                assert(s[k] == d[k] && d[k] <= spec_usum(d));
            }
        }
    }
}

/// Normalisation weight of one ranked row: the fixed-point unit scaled
/// down by one plus the row's gap to the best score; zero for a
/// score-less row.  Monotone in the score, so confidences reproduce
/// the ranking the raw scores give.
spec fn spec_weight(score: Option<i128>, best: int) -> int {
    match score {
        None => 0,
        Some(sc) => WEIGHT_UNIT as int / (1 + best - sc),
    }
}

/// A configured detector: an immutable language set in catalog order,
/// one loaded frequency model per language, and the decision margin.
pub struct LanguageDetector {
    languages: Vec<Language>,
    models: Vec<LanguageModel>,
    minimum_relative_distance: u32,
}

impl LanguageDetector {
    /// The configured languages, in catalog order.
    pub closed spec fn languages(&self) -> Seq<Language> {
        self.languages@
    }

    /// The configured minimum relative distance, in hundredths.
    pub closed spec fn relative_distance(&self) -> int {
        self.minimum_relative_distance as int
    }

    /// The loaded frequency models, position by position.
    pub closed spec fn model_views(&self) -> Seq<Seq<(Seq<u32>, i64)>> {
        self.models@.map_values(|m: LanguageModel| m@)
    }

    #[verifier::type_invariant]
    closed spec fn wf(&self) -> bool {
        &&& strictly_sorted(self.languages@)
        &&& 2 <= self.languages@.len() <= 17
        &&& self.minimum_relative_distance <= 99
        &&& self.models@.len() == self.languages@.len()
        &&& forall|i: int| 0 <= i < self.models@.len() ==> wf_entries(#[trigger] self.models@[i]@)
    }

    /// Builds a detector for a validated configuration, loading the
    /// packaged model of every requested language.  The contract pins
    /// the models: position by position, the detector holds exactly
    /// `spec_builtin_model` of the configured language, so identically
    /// configured detectors hold identical models; every loaded model
    /// is well-formed, the premise the public detection laws ask for.
    pub fn from(languages: Vec<Language>, minimum_relative_distance: u32) -> (d: LanguageDetector)
        requires
            strictly_sorted(languages@),
            2 <= languages@.len() <= 17,
            minimum_relative_distance <= 99,
        ensures
            d.languages() == languages@,
            d.relative_distance() == minimum_relative_distance as int,
            d.model_views() == spec_builtin_models(languages@),
            d.model_views().len() == languages@.len(),
            forall|i: int|
                0 <= i < d.model_views().len() ==> wf_entries(#[trigger] d.model_views()[i]),
    {
        let mut models: Vec<LanguageModel> = Vec::new();
        let mut i: usize = 0;
        while i < languages.len()
            invariant
                i <= languages@.len(),
                models@.len() == i,
                forall|k: int| 0 <= k < i ==> wf_entries(#[trigger] models@[k]@),
                forall|k: int|
                    0 <= k < i ==> #[trigger] models@[k]@ == spec_builtin_model(languages@[k]),
            decreases languages@.len() - i,
        {
            let raw = builtin_entries(languages[i]);
            models.push(LanguageModel::from_entries(raw));
            i += 1;
        }
        let d = LanguageDetector { languages, models, minimum_relative_distance };
        proof {
            assert forall|k: int|
                0 <= k < d.model_views().len() implies wf_entries(
                #[trigger] d.model_views()[k],
            ) && d.model_views()[k] == spec_builtin_model(d.languages@[k]) by {
                assert(d.model_views()[k] == d.models@[k]@);
            }
            assert(d.model_views() =~= spec_builtin_models(d.languages@));
        }
        d
    }

    /// Whether a text holds a code point of a script this language can
    /// be written in.
    fn lang_matches_text(cps: &Vec<u32>, l: Language) -> (r: bool)
        ensures
            r == spec_lang_matches(cps@, l),
    {
        let mut i: usize = 0;
        while i < cps.len()
            invariant
                i <= cps@.len(),
                forall|k: int| 0 <= k < i ==> !spec_char_matches(#[trigger] cps@[k], l),
            decreases cps@.len() - i,
        {
            let c = cps[i];
            let matched = match script_of(c) {
                Some(s) => l.uses_script(s),
                None => false,
            };
            if matched {
                proof {
                    assert(spec_char_matches(cps@[i as int], l));
                }
                return true;
            }
            i += 1;
        }
        false
    }

    /// The candidate positions for a text: script-matching ones, or all
    /// configured positions when none matches.
    fn candidate_indices(&self, cps: &Vec<u32>) -> (r: Vec<usize>)
        ensures
            r@.len() == spec_candidates(self.languages(), cps@).len(),
            forall|k: int|
                0 <= k < r@.len() ==> #[trigger] r@[k] as int == spec_candidates(
                    self.languages(),
                    cps@,
                )[k],
            forall|k: int| 0 <= k < r@.len() ==> #[trigger] r@[k] < self.languages().len(),
            r@.len() >= 1,
            r@.len() <= self.languages().len(),
    {
        proof {
            use_type_invariant(self);
            lemma_candidates_bounds(self.languages@, cps@);
        }
        let ghost ls = self.languages@;
        let mut m: Vec<usize> = Vec::new();
        let mut i: usize = 0;
        while i < self.languages.len()
            invariant
                i <= ls.len(),
                ls == self.languages@,
                m@.len() == spec_matching_idxs(ls.take(i as int), cps@).len(),
                forall|k: int|
                    0 <= k < m@.len() ==> #[trigger] m@[k] as int == spec_matching_idxs(
                        ls.take(i as int),
                        cps@,
                    )[k],
                forall|k: int| 0 <= k < m@.len() ==> #[trigger] m@[k] < i,
            decreases ls.len() - i,
        {
            let is_match = Self::lang_matches_text(cps, self.languages[i]);
            proof {
                let next = ls.take(i + 1);
                assert(next.drop_last() =~= ls.take(i as int));
                assert(next.last() == ls[i as int]);
            }
            if is_match {
                m.push(i);
            }
            i += 1;
        }
        proof {
            assert(ls.take(ls.len() as int) =~= ls);
        }
        if m.len() == 0 {
            let n = self.languages.len();
            let mut all: Vec<usize> = Vec::new();
            let mut j: usize = 0;
            while j < n
                invariant
                    j <= n,
                    all@.len() == j,
                    forall|k: int| 0 <= k < j ==> #[trigger] all@[k] == k,
                decreases n - j,
            {
                all.push(j);
                j += 1;
            }
            all
        } else {
            m
        }
    }

    /// The single best guess for a text, or `None` when the input holds
    /// no letters or the margin rule withholds a decision.
    pub fn detect_language_of(&self, text: &str) -> (r: Option<Language>)
        ensures
            r == spec_detect(
                self.languages(),
                self.model_views(),
                self.relative_distance(),
                text@,
            ),
            r matches Some(l) ==> self.languages().contains(l),
    {
        proof {
            use_type_invariant(self);
            broadcast use lemma_word_deep_view;
        }
        let cps = code_points(text);
        let words = split_words(&cps);
        let ghost wv = words.deep_view();
        if words.len() == 0 {
            return None;
        }
        proof {
            lemma_words_nonempty(cps@);
        }
        let cands = self.candidate_indices(&cps);
        let ghost csp = spec_candidates(self.languages(), cps@);
        proof {
            lemma_candidates_bounds(self.languages@, cps@);
        }
        if cands.len() == 1 {
            let l = self.languages[cands[0]];
            proof {
                assert(self.languages@[csp[0]] == l);
            }
            return Some(l);
        }
        let ghost mv = self.model_views();
        let ghost n = self.languages@.len() as int;
        proof {
            assert(csp.take(1).drop_last() =~= Seq::<int>::empty());
            assert(mv[csp[0]] == self.models@[cands@[0] as int]@);
        }
        let first_idx = cands[0];
        let mut best_idx: usize = first_idx;
        let mut best: i128 = self.models[first_idx].score_unit(&words);
        let mut second: Option<i128> = None;
        proof {
            assert(csp.take(1).len() == 1);
            assert(csp.take(1)[0] == csp[0]);
            assert(spec_rank(mv, wv, csp.take(1)) == (
                csp[0],
                spec_score(mv[csp[0]], wv),
                None::<int>,
            ));
        }
        let mut j: usize = 1;
        while j < cands.len()
            invariant
                1 <= j <= cands@.len(),
                cands@.len() == csp.len(),
                csp.len() >= 2,
                mv == self.model_views(),
                n == self.languages@.len(),
                mv.len() == n,
                self.models@.len() == n,
                forall|i: int| 0 <= i < n ==> wf_entries(#[trigger] self.models@[i]@),
                wv == words.deep_view(),
                wv.len() > 0,
                forall|k: int| 0 <= k < wv.len() ==> wv[k].len() > 0,
                forall|k: int| 0 <= k < csp.len() ==> #[trigger] cands@[k] as int == csp[k],
                forall|k: int| 0 <= k < csp.len() ==> 0 <= #[trigger] csp[k] < n,
                best_idx as int == spec_rank(mv, wv, csp.take(j as int)).0,
                best as int == spec_rank(mv, wv, csp.take(j as int)).1,
                (second is None) <==> (spec_rank(mv, wv, csp.take(j as int)).2 is None),
                second matches Some(x) ==> spec_rank(mv, wv, csp.take(j as int)).2 == Some(
                    x as int,
                ),
                best_idx < n,
                SCORE_MIN <= best <= 0,
                second matches Some(x) ==> SCORE_MIN <= x <= 0,
            decreases cands@.len() - j,
        {
            let idx = cands[j];
            let sc = self.models[idx].score_unit(&words);
            proof {
                let prefix = csp.take(j as int);
                let next = csp.take(j + 1);
                assert(next.drop_last() =~= prefix);
                assert(next.last() == csp[j as int]);
                assert(mv[csp[j as int]] == self.models@[idx as int]@);
                assert(spec_rank(mv, wv, next) == spec_rank_step(
                    spec_rank(mv, wv, prefix),
                    csp[j as int],
                    spec_score(mv[csp[j as int]], wv),
                ));
            }
            if sc > best {
                second = Some(best);
                best = sc;
                best_idx = idx;
            } else {
                match second {
                    None => {
                        second = Some(sc);
                    },
                    Some(s2) => {
                        if sc > s2 {
                            second = Some(sc);
                        }
                    },
                }
            }
            j += 1;
        }
        proof {
            assert(csp.take(csp.len() as int) =~= csp);
            lemma_rank_member(mv, wv, csp);
        }
        match second {
            None => {
                proof {
                    assert(false);
                }
                None
            },
            Some(s2) => {
                let lhs: i128 = (best - s2) * 100;
                proof {
                    let md = self.minimum_relative_distance as i128;
                    assert(0 <= md * (-best) <= 99 * (-SCORE_MIN)) by (nonlinear_arith)
                        requires
                            0 <= md <= 99,
                            SCORE_MIN <= best <= 0,
                    ;
                }
                let rhs: i128 = (self.minimum_relative_distance as i128) * (-best);
                if lhs >= rhs {
                    let l = self.languages[best_idx];
                    proof {
                        assert(self.languages@[best_idx as int] == l);
                    }
                    Some(l)
                } else {
                    None
                }
            },
        }
    }

    /// Whether a candidate list holds a position.
    fn contains_idx(cands: &Vec<usize>, v: usize) -> (r: bool)
        ensures
            r == exists|j: int| 0 <= j < cands@.len() && #[trigger] cands@[j] == v,
    {
        let mut j: usize = 0;
        while j < cands.len()
            invariant
                j <= cands@.len(),
                forall|k: int| 0 <= k < j ==> #[trigger] cands@[k] != v,
            decreases cands@.len() - j,
        {
            if cands[j] == v {
                return true;
            }
            j += 1;
        }
        false
    }

    /// The confidence distribution over the configured languages:
    /// exactly one entry per configured language, descending, in parts
    /// per million and summing to one million whenever the text holds
    /// any letters (a letter-free text leaves every confidence zero).
    /// A language script filtering eliminated is reported with
    /// confidence zero rather than omitted.
    #[verifier::rlimit(100)]
    pub fn compute_language_confidence_values(&self, text: &str) -> (r: Vec<(Language, u32)>)
        ensures
            r@.len() == self.languages().len(),
            forall|k: int|
                0 <= k < r@.len() ==> self.languages().contains((#[trigger] r@[k]).0),
            forall|l: Language| self.languages().contains(l) ==> spec_has_entry_for(r@, l),
            forall|k1: int, k2: int| 0 <= k1 < k2 < r@.len() ==> r@[k1].0 != r@[k2].0,
            forall|k1: int, k2: int| 0 <= k1 <= k2 < r@.len() ==> r@[k1].1 >= r@[k2].1,
            forall|k: int| 0 <= k < r@.len() ==> (#[trigger] r@[k]).1 <= CONFIDENCE_SCALE,
            spec_conf_sum(r@) == if spec_words(spec_code_points(text@)).len() == 0 {
                0int
            } else {
                CONFIDENCE_SCALE as int
            },
            forall|k: int|
                0 <= k < r@.len() && !spec_lang_is_candidate(
                    self.languages(),
                    spec_code_points(text@),
                    (#[trigger] r@[k]).0,
                ) ==> r@[k].1 == 0,
            forall|k1: int, k2: int|
                0 <= k1 < k2 < r@.len() && spec_lang_is_candidate(
                    self.languages(),
                    spec_code_points(text@),
                    (#[trigger] r@[k1]).0,
                ) && spec_lang_is_candidate(
                    self.languages(),
                    spec_code_points(text@),
                    (#[trigger] r@[k2]).0,
                ) ==> spec_score(
                    self.model_views()[spec_position_of(self.languages(), r@[k2].0)],
                    spec_words(spec_code_points(text@)),
                ) <= spec_score(
                    self.model_views()[spec_position_of(self.languages(), r@[k1].0)],
                    spec_words(spec_code_points(text@)),
                ),
            spec_words(spec_code_points(text@)).len() > 0 ==> r@.len() > 0 && r@[0].0
                == self.languages()[spec_rank(
                self.model_views(),
                spec_words(spec_code_points(text@)),
                spec_candidates(self.languages(), spec_code_points(text@)),
            ).0],
    {
        proof {
            use_type_invariant(self);
            broadcast use lemma_word_deep_view;
        }
        let ghost ls = self.languages@;
        let cps = code_points(text);
        let words = split_words(&cps);
        let ghost wv = words.deep_view();
        let n = self.languages.len();
        if words.len() == 0 {
            let mut out: Vec<(Language, u32)> = Vec::new();
            let mut i: usize = 0;
            while i < n
                invariant
                    i <= n,
                    n == ls.len(),
                    ls == self.languages@,
                    out@.len() == i,
                    forall|k: int| 0 <= k < i ==> #[trigger] out@[k] == (ls[k], 0u32),
                    spec_conf_sum(out@) == 0,
                decreases n - i,
            {
                let ghost before = out@;
                out.push((self.languages[i], 0u32));
                proof {
                    assert(out@.drop_last() =~= before);
                }
                i += 1;
            }
            proof {
                assert forall|l: Language|
                    self.languages().contains(l) implies spec_has_entry_for(out@, l) by {
                    let d = choose|d: int| 0 <= d < ls.len() && ls[d] == l;
                    assert(out@[d].0 == l);
                }
                assert forall|k1: int, k2: int|
                    0 <= k1 < k2 < out@.len() implies out@[k1].0 != out@[k2].0 by {
                    assert(spec_lang_index(ls[k1]) < spec_lang_index(ls[k2]));
                }
                let wve = spec_words(spec_code_points(text@));
                assert(wve.len() == 0);
                assert forall|m: Seq<(Seq<u32>, i64)>| #[trigger] spec_score(m, wve) == 0 by {
                    assert(crate::ngram::spec_min_len(wve) == 0);
                    assert(spec_score(m, wve) == crate::model::spec_score_orders(m, wve, 0));
                }
            }
            return out;
        }
        proof {
            lemma_words_nonempty(cps@);
        }
        let cands = self.candidate_indices(&cps);
        let ghost csp = spec_candidates(self.languages(), cps@);
        let ghost mv = self.model_views();
        proof {
            lemma_candidates_bounds(ls, cps@);
        }
        // one row per configured position, scored when it is a candidate
        let mut entries: Vec<ScoredEntry> = Vec::new();
        let mut i: usize = 0;
        while i < n
            invariant
                i <= n,
                n == ls.len(),
                ls == self.languages@,
                2 <= n <= 17,
                mv == self.model_views(),
                mv.len() == n,
                self.models@.len() == n,
                forall|ii: int| 0 <= ii < n ==> wf_entries(#[trigger] self.models@[ii]@),
                wv == words.deep_view(),
                wv.len() > 0,
                forall|k: int| 0 <= k < wv.len() ==> wv[k].len() > 0,
                forall|k: int| 0 <= k < csp.len() ==> #[trigger] cands@[k] as int == csp[k],
                cands@.len() == csp.len(),
                entries@.len() == i,
                forall|k: int| 0 <= k < i ==> (#[trigger] entries@[k]).idx == k,
                forall|k: int|
                    0 <= k < i ==> (((#[trigger] entries@[k]).score is Some) <==> csp.contains(
                        k as int,
                    )),
                forall|k: int|
                    0 <= k < i ==> ((#[trigger] entries@[k]).score matches Some(x) ==> x as int
                        == spec_score(mv[k], wv) && SCORE_MIN <= x <= 0),
            decreases n - i,
        {
            let member = Self::contains_idx(&cands, i);
            proof {
                if member {
                    let j = choose|j: int| 0 <= j < cands@.len() && cands@[j] == i;
                    assert(csp[j] == i as int);
                    assert(csp.contains(i as int));
                } else if csp.contains(i as int) {
                    let j = choose|j: int| 0 <= j < csp.len() && csp[j] == i as int;
                    assert(cands@[j] == i);
                }
                assert(mv[i as int] == self.models@[i as int]@);
            }
            let score: Option<i128> = if member {
                Some(self.models[i].score_unit(&words))
            } else {
                None
            };
            entries.push(ScoredEntry { idx: i, score });
            i += 1;
        }
        let ghost inp = entries@;
        let sorted = sort_entries(entries);
        proof {
            lemma_entries_permutation(inp, sorted@);
        }
        // the best-ranked row is always a scored one
        let ghost d0 = csp[0];
        proof {
            assert(csp.contains(csp[0]));
            assert(inp[d0].score is Some);
            assert(has_row(sorted@, inp[d0]));
            let k0 = choose|k: int| 0 <= k < sorted@.len() && sorted@[k] == inp[d0];
            if !(sorted@[0].score is Some) {
                assert(k0 != 0);
                assert(spec_ge(sorted@[0], sorted@[k0]));
                assert(false);
            }
        }
        let best: i128 = match sorted[0].score {
            Some(b) => b,
            None => 0,
        };
        // normalisation weights against the best score
        let mut weights: Vec<u128> = Vec::new();
        let mut wsum: u128 = 0;
        let mut k: usize = 0;
        while k < n
            invariant
                k <= n,
                2 <= n <= 17,
                sorted@.len() == n,
                sorted@[0].score == Some(best),
                SCORE_MIN <= best <= 0,
                forall|j: int|
                    0 <= j < n ==> ((#[trigger] sorted@[j]).score matches Some(x) ==> SCORE_MIN
                        <= x <= 0),
                forall|j1: int, j2: int|
                    0 <= j1 < j2 < n ==> spec_ge(#[trigger] sorted@[j1], #[trigger] sorted@[j2]),
                weights@.len() == k,
                forall|j: int|
                    0 <= j < k ==> #[trigger] weights@[j] as int == spec_weight(
                        sorted@[j].score,
                        best as int,
                    ),
                forall|j: int| 0 <= j < k ==> #[trigger] weights@[j] <= WEIGHT_UNIT,
                forall|j: int| 0 <= j < k ==> ((sorted@[j].score is None) ==> #[trigger] weights@[
                    j] == 0),
                forall|j1: int, j2: int|
                    0 <= j1 < j2 < k ==> #[trigger] weights@[j1] >= #[trigger] weights@[j2],
                k >= 1 ==> weights@[0] == WEIGHT_UNIT,
                wsum == spec_usum(weights@),
                wsum <= k * WEIGHT_UNIT,
            decreases n - k,
        {
            let e = sorted[k];
            let w: u128;
            match e.score {
                None => {
                    w = 0;
                },
                Some(sc) => {
                    proof {
                        if k > 0 {
                            assert(spec_ge(sorted@[0], sorted@[k as int]));
                        }
                        assert(sc <= best);
                        let den = 1 + (best as int - sc as int);
                        lemma_div_pos_is_pos(WEIGHT_UNIT as int, den);
                        lemma_div_is_ordered_by_denominator(WEIGHT_UNIT as int, 1, den);
                        assert(WEIGHT_UNIT as int / 1 == WEIGHT_UNIT as int);
                    }
                    let gap: u128 = (best - sc) as u128;
                    w = WEIGHT_UNIT / (gap + 1);
                    proof {
                        assert(gap + 1 == 1 + (best as int - sc as int));
                    }
                },
            }
            proof {
                assert forall|j: int| 0 <= j < k implies #[trigger] weights@[j] >= w by {
                    assert(spec_ge(sorted@[j], sorted@[k as int]));
                    if sorted@[j].score is Some && sorted@[k as int].score is Some {
                        let sj = sorted@[j].score->Some_0;
                        let sk = sorted@[k as int].score->Some_0;
                        assert(sj >= sk);
                        lemma_div_is_ordered_by_denominator(
                            WEIGHT_UNIT as int,
                            1 + (best as int - sj as int),
                            1 + (best as int - sk as int),
                        );
                    }
                }
                let ghost wpushed = weights@.push(w);
                assert(wpushed.drop_last() =~= weights@);
                if k == 0 {
                    assert(sorted@[0].score == Some(best));
                    assert(w as int == WEIGHT_UNIT as int / (1 + best as int - best as int));
                    assert(WEIGHT_UNIT as int / 1 == WEIGHT_UNIT as int);
                }
            }
            weights.push(w);
            wsum = wsum + w;
            k += 1;
        }
        proof {
            assert(weights@[0] == WEIGHT_UNIT);
            lemma_usum_props(weights@);
            assert(wsum >= WEIGHT_UNIT);
        }
        // floor-normalised confidences in parts per million
        let mut confs: Vec<u128> = Vec::new();
        let mut csum: u128 = 0;
        let mut k: usize = 0;
        while k < n
            invariant
                k <= n,
                2 <= n <= 17,
                weights@.len() == n,
                forall|j: int| 0 <= j < n ==> #[trigger] weights@[j] <= WEIGHT_UNIT,
                forall|j1: int, j2: int|
                    0 <= j1 < j2 < n ==> #[trigger] weights@[j1] >= #[trigger] weights@[j2],
                wsum == spec_usum(weights@),
                WEIGHT_UNIT <= wsum <= n * WEIGHT_UNIT,
                confs@.len() == k,
                forall|j: int|
                    0 <= j < k ==> #[trigger] confs@[j] as int == (weights@[j] as int) * 1000000
                        / (wsum as int),
                forall|j: int| 0 <= j < k ==> #[trigger] confs@[j] <= 1000000,
                forall|j1: int, j2: int|
                    0 <= j1 < j2 < k ==> #[trigger] confs@[j1] >= #[trigger] confs@[j2],
                forall|j: int| 0 <= j < k ==> (weights@[j] == 0 ==> #[trigger] confs@[j] == 0),
                csum == spec_usum(confs@),
                csum <= k * 1000000,
                (wsum as int) * (csum as int) <= 1000000 * spec_usum(weights@.take(k as int)),
                k >= 1 ==> csum >= confs@[0],
            decreases n - k,
        {
            let w = weights[k];
            proof {
                lemma_usum_props(weights@);
                assert(w <= wsum);
                let wi = w as int;
                let wbig = wsum as int;
                lemma_div_pos_is_pos(wi * 1000000, wbig);
                lemma_div_is_ordered(wi * 1000000, wbig * 1000000, wbig);
                lemma_div_by_multiple(1000000, wbig);
                assert((1000000 * wbig) / wbig == 1000000);
                assert(wbig * 1000000 == 1000000 * wbig) by (nonlinear_arith);
                assert forall|j: int|
                    0 <= j < k implies #[trigger] confs@[j] as int >= (wi * 1000000) / wbig by {
                    assert(weights@[j] >= w);
                    lemma_div_is_ordered(wi * 1000000, (weights@[j] as int) * 1000000, wbig);
                }
                if w == 0 {
                    assert((0int * 1000000) / wbig == 0) by {
                        lemma_div_pos_is_pos(0int * 1000000, wbig);
                        lemma_div_is_ordered(0int * 1000000, 0int, wbig);
                        assert(0int / wbig == 0) by {
                            vstd::arithmetic::div_mod::lemma_div_of0(wbig);
                        }
                    }
                }
                lemma_fundamental_div_mod(wi * 1000000, wbig);
                lemma_mod_division_less_than_divisor(wi * 1000000, wbig);
                let q = (wi * 1000000) / wbig;
                assert(wbig * q <= wi * 1000000);
                assert(wbig * (csum as int + q) == wbig * (csum as int) + wbig * q)
                    by (nonlinear_arith);
                assert(weights@.take(k + 1).drop_last() =~= weights@.take(k as int));
                assert(weights@.take(k + 1).last() == weights@[k as int]);
                let ghost cpushed = confs@.push((q as u128));
                assert(cpushed.drop_last() =~= confs@);
            }
            let q: u128 = (w * 1000000) / wsum;
            confs.push(q);
            csum = csum + q;
            k += 1;
        }
        proof {
            assert(weights@.take(n as int) =~= weights@);
            assert(csum as int <= 1000000) by (nonlinear_arith)
                requires
                    (wsum as int) * (csum as int) <= 1000000 * (wsum as int),
                    wsum as int > 0,
                    csum as int >= 0,
            ;
        }
        // the rounding slack is credited to the best-ranked candidate
        let rem: u128 = 1000000 - csum;
        let mut out: Vec<(Language, u32)> = Vec::new();
        let mut k: usize = 0;
        while k < n
            invariant
                k <= n,
                2 <= n <= 17,
                n == ls.len(),
                ls == self.languages@,
                self.languages@.len() == n,
                sorted@.len() == n,
                confs@.len() == n,
                forall|j: int| 0 <= j < n ==> #[trigger] confs@[j] <= 1000000,
                forall|j1: int, j2: int|
                    0 <= j1 < j2 < n ==> #[trigger] confs@[j1] >= #[trigger] confs@[j2],
                csum == spec_usum(confs@),
                csum <= 1000000,
                csum >= confs@[0],
                rem == 1000000 - csum,
                forall|j: int|
                    0 <= j < n ==> 0 <= (#[trigger] sorted@[j]).idx < n,
                out@.len() == k,
                forall|j: int|
                    0 <= j < k ==> (#[trigger] out@[j]).0 == ls[sorted@[j].idx as int],
                forall|j: int|
                    0 <= j < k ==> (#[trigger] out@[j]).1 as int == confs@[j] + if j == 0 {
                        rem as int
                    } else {
                        0int
                    },
                forall|j: int| 0 <= j < k ==> (#[trigger] out@[j]).1 <= 1000000,
                forall|j1: int, j2: int|
                    0 <= j1 <= j2 < k ==> (#[trigger] out@[j1]).1 >= (#[trigger] out@[j2]).1,
                spec_conf_sum(out@) == spec_usum(confs@.take(k as int)) + if k >= 1 {
                    rem as int
                } else {
                    0int
                },
            decreases n - k,
        {
            let e = sorted[k];
            let add: u128 = if k == 0 {
                rem
            } else {
                0
            };
            let c: u128 = confs[k] + add;
            proof {
                if k == 0 {
                    assert(c <= 1000000);
                } else {
                    assert(confs@[k as int] <= confs@[0]);
                }
                assert(confs@.take(k + 1).drop_last() =~= confs@.take(k as int));
                assert(confs@.take(k + 1).last() == confs@[k as int]);
                let ghost opushed = out@.push((ls[sorted@[k as int].idx as int], (c as u32)));
                assert(opushed.drop_last() =~= out@);
            }
            out.push((self.languages[e.idx], c as u32));
            k += 1;
        }
        proof {
            assert(confs@.take(n as int) =~= confs@);
            assert(spec_conf_sum(out@) == 1000000);
            // every configured language appears exactly once
            assert forall|k1: int, k2: int|
                0 <= k1 < k2 < out@.len() implies out@[k1].0 != out@[k2].0 by {
                let i1 = sorted@[k1].idx as int;
                let i2 = sorted@[k2].idx as int;
                assert(i1 != i2);
                if i1 < i2 {
                    assert(spec_lang_index(ls[i1]) < spec_lang_index(ls[i2]));
                } else {
                    assert(spec_lang_index(ls[i2]) < spec_lang_index(ls[i1]));
                }
            }
            assert forall|l: Language|
                self.languages().contains(l) implies spec_has_entry_for(out@, l) by {
                let d = choose|d: int| 0 <= d < ls.len() && ls[d] == l;
                assert(has_row(sorted@, inp[d]));
                let k0 = choose|k0: int| 0 <= k0 < sorted@.len() && sorted@[k0] == inp[d];
                assert(out@[k0].0 == ls[d]);
            }
            assert forall|k0: int|
                0 <= k0 < out@.len() implies self.languages().contains(
                (#[trigger] out@[k0]).0,
            ) by {
                let d = sorted@[k0].idx as int;
                assert(ls[d] == out@[k0].0);
            }
            // a language script filtering eliminated keeps confidence zero
            assert forall|k0: int|
                0 <= k0 < out@.len() && !spec_lang_is_candidate(
                    self.languages(),
                    spec_code_points(text@),
                    (#[trigger] out@[k0]).0,
                ) implies out@[k0].1 == 0 by {
                let d = sorted@[k0].idx as int;
                if csp.contains(d) {
                    let j = choose|j: int| 0 <= j < csp.len() && csp[j] == d;
                    assert(0 <= spec_candidates(self.languages(), spec_code_points(text@))[j]
                        < ls.len());
                    assert(ls[spec_candidates(self.languages(), spec_code_points(text@))[j]]
                        == out@[k0].0);
                    assert(spec_lang_is_candidate(
                        self.languages(),
                        spec_code_points(text@),
                        out@[k0].0,
                    ));
                } else {
                    assert(sorted@[k0] == inp[d]);
                    assert(!(inp[d].score is Some));
                    assert(weights@[k0] == 0);
                    assert(confs@[k0] == 0);
                    if k0 == 0 {
                        assert(sorted@[0].score is Some);
                        assert(false);
                    }
                }
            }
            // confidences reproduce the ranking the raw scores give
            assert forall|a: int, b: int|
                0 <= a < ls.len() && 0 <= b < ls.len() && ls[a] == ls[b] implies a == b by {
                if a < b {
                    assert(spec_lang_index(ls[a]) < spec_lang_index(ls[b]));
                }
                if b < a {
                    assert(spec_lang_index(ls[b]) < spec_lang_index(ls[a]));
                }
            }
            assert forall|k1: int, k2: int|
                0 <= k1 < k2 < out@.len() && spec_lang_is_candidate(
                    self.languages(),
                    spec_code_points(text@),
                    (#[trigger] out@[k1]).0,
                ) && spec_lang_is_candidate(
                    self.languages(),
                    spec_code_points(text@),
                    (#[trigger] out@[k2]).0,
                ) implies spec_score(
                mv[spec_position_of(ls, out@[k2].0)],
                wv,
            ) <= spec_score(mv[spec_position_of(ls, out@[k1].0)], wv) by {
                let d1 = sorted@[k1].idx as int;
                let d2 = sorted@[k2].idx as int;
                assert(out@[k1].0 == ls[d1] && out@[k2].0 == ls[d2]);
                let p1 = spec_position_of(ls, out@[k1].0);
                let p2 = spec_position_of(ls, out@[k2].0);
                assert(0 <= p1 < ls.len() && ls[p1] == out@[k1].0);
                assert(0 <= p2 < ls.len() && ls[p2] == out@[k2].0);
                assert(p1 == d1 && p2 == d2);
                let j1 = choose|j: int|
                    0 <= j < csp.len() && 0 <= #[trigger] csp[j] < ls.len() && ls[csp[j]]
                        == out@[k1].0;
                let j2 = choose|j: int|
                    0 <= j < csp.len() && 0 <= #[trigger] csp[j] < ls.len() && ls[csp[j]]
                        == out@[k2].0;
                assert(csp[j1] == d1 && csp[j2] == d2);
                assert(csp.contains(d1) && csp.contains(d2));
                assert(sorted@[k1] == inp[d1] && sorted@[k2] == inp[d2]);
                assert(inp[d1].score is Some && inp[d2].score is Some);
                assert(spec_ge(sorted@[k1], sorted@[k2]));
                let x1 = inp[d1].score->Some_0;
                let x2 = inp[d2].score->Some_0;
                assert(x1 >= x2);
                assert(x1 as int == spec_score(mv[d1], wv));
                assert(x2 as int == spec_score(mv[d2], wv));
            }
            // the list is headed by the ranked best candidate
            let rk = spec_rank(mv, wv, csp);
            lemma_rank_member(mv, wv, csp);
            lemma_rank_is_max(mv, wv, csp);
            let kk = choose|k: int| 0 <= k < csp.len() && csp[k] == rk.0;
            assert(0 <= rk.0 < n);
            assert(inp[rk.0].score is Some);
            let xr = inp[rk.0].score->Some_0;
            assert(xr as int == spec_score(mv[rk.0], wv));
            assert(spec_score(mv[csp[kk]], wv) == rk.1);
            let dstar = sorted@[0].idx as int;
            assert(sorted@[0] == inp[dstar]);
            let x0 = inp[dstar].score->Some_0;
            assert(csp.contains(dstar));
            let kd = choose|k: int| 0 <= k < csp.len() && csp[k] == dstar;
            assert(spec_score(mv[csp[kd]], wv) <= rk.1);
            assert(x0 as int == spec_score(mv[dstar], wv));
            assert(has_row(sorted@, inp[rk.0]));
            let kstar = choose|k: int| 0 <= k < sorted@.len() && sorted@[k] == inp[rk.0];
            if kstar != 0 {
                assert(spec_ge(sorted@[0], sorted@[kstar]));
                assert(x0 > xr || (x0 == xr && dstar <= rk.0));
            }
            if dstar < rk.0 {
                assert(spec_score(mv[csp[kd]], wv) < rk.1);
                assert(false);
            }
            if dstar > rk.0 {
                assert(kstar != 0);
                assert(false);
            }
            assert(out@[0].0 == ls[rk.0]);
        }
        out
    }
}

} // verus!
